//! The local invoker: which command it runs for each request, which
//! storage operation a function process asks for, and what it answers.

use vstd::prelude::*;
use vstd::string::*;
use crate::byte_list::{byte_list_text, byte_list_text_of, parse_byte_line_spec, lemma_byte_list_roundtrip, lemma_byte_list_text_is_plain};
use crate::msgpack::{encode_string_array, string_array_bytes, fits_string_array};
use crate::text::{utf8_text, opt_text, debug_text, debug_repr, setting_or, setting_or_spec};
use vstd::utf8::{valid_utf8, decode_utf8};

verus! {

/// A storage operation that a function process asks for.
#[derive(Debug, Clone, Copy, PartialEq, Eq, Structural)]
pub enum Op {
    Create,
    Read,
    Update,
    Delete,
}

/// A decoded request from a function process: an operation on a file of
/// the local storage.
#[derive(Debug, Clone)]
pub struct Request {
    pub op: Op,
    pub nomefile: String,
}

/// What the invoker does on disk for a request.
#[derive(Debug, Clone)]
pub enum FileAction {
    /// Read the whole file.
    Read { path: String },
    /// Create or truncate the file, then write `content` into it.
    Write { path: String, content: String },
    /// Remove the file if it exists.
    Remove { path: String },
}

/// The directory that holds the files the functions work on.
pub open spec fn storage_dir() -> Seq<char> {
    "/home/fdlv/localstorage/"@
}

/// The path of a file of the local storage.
pub open spec fn storage_path_spec(name: Seq<char>) -> Seq<char> {
    storage_dir() + name
}

/// What a create or update writes: 1024 times the letter `a`.
pub open spec fn filler_spec() -> Seq<char> {
    Seq::new(1024, |i: int| 'a')
}

/// The answer that carries a text: the text in a one-element MessagePack
/// array, written as a list of decimal bytes.
pub open spec fn quoted_answer_spec(quoted: Seq<char>) -> Seq<char> {
    byte_list_text(string_array_bytes(seq![quoted]))
}

/// The answer to a read: the answer that carries the file's debug text.
pub open spec fn read_answer_spec(contents: Seq<char>) -> Seq<char> {
    quoted_answer_spec(debug_repr(contents))
}

/// Whether the read answer's encoding is within MessagePack's 32-bit lengths.
pub open spec fn read_answer_fits(contents: Seq<char>) -> bool {
    fits_string_array(seq![debug_repr(contents)])
}

/// The answer to a create, an update or a delete.
pub open spec fn success_spec() -> Seq<char> {
    "success"@
}

/// The program that the invoker starts for each request.
pub open spec fn function_program() -> Seq<char> {
    "../GenericFunctionWithFlag/target/debug/genericfunctionwithflag"@
}

/// The shell command for a request: the program with the operation, a
/// file named after the request and the request's id.
pub open spec fn invocation_command_spec(op: Seq<char>, req_id: Seq<char>) -> Seq<char> {
    function_program() + " --operation "@ + op + " --nomefile prova"@ + req_id + " --id "@ + req_id
}

/// A storage path is the 24 characters of the storage directory followed
/// by the whole file name, unchanged.
pub proof fn lemma_storage_path_keeps_name(name: Seq<char>)
    ensures
        storage_path_spec(name).len() == 24 + name.len(),
        storage_path_spec(name).subrange(0, 24) == "/home/fdlv/localstorage/"@,
        storage_path_spec(name).subrange(24, storage_path_spec(name).len() as int) == name,
{
    reveal_strlit("/home/fdlv/localstorage/");
    let p = storage_path_spec(name);
    assert(p.subrange(0, 24) =~= "/home/fdlv/localstorage/"@);
    assert(p.subrange(24, p.len() as int) =~= name);
}

/// Different file names never share a path.
pub proof fn lemma_storage_path_injective(a: Seq<char>, b: Seq<char>)
    ensures
        storage_path_spec(a) == storage_path_spec(b) ==> a == b,
{
    lemma_storage_path_keeps_name(a);
    lemma_storage_path_keeps_name(b);
}

/// The path of a file of the local storage.
pub fn storage_path(name: &str) -> (p: String)
    ensures
        p@ == storage_path_spec(name@),
{
    let mut p = String::from_str("/home/fdlv/localstorage/");
    p.append(name);
    p
}

/// The content written by a create or an update.
pub fn filler_content() -> (s: String)
    ensures
        s@ == filler_spec(),
{
    let mut s = String::new();
    let mut i: usize = 0;
    while i < 1024
        invariant
            i <= 1024,
            s@ == Seq::new(i as nat, |j: int| 'a'),
        decreases 1024 - i,
    {
        s.push('a');
        i = i + 1;
        assert(s@ =~= Seq::new(i as nat, |j: int| 'a'));
    }
    s
}

/// The disk work that a request asks for.
pub fn plan_file_action(req: &Request) -> (a: FileAction)
    ensures
        match req.op {
            Op::Read => a matches FileAction::Read { path } && path@ == storage_path_spec(req.nomefile@),
            Op::Create | Op::Update => a matches FileAction::Write { path, content }
                && path@ == storage_path_spec(req.nomefile@) && content@ == filler_spec(),
            Op::Delete => a matches FileAction::Remove { path } && path@ == storage_path_spec(req.nomefile@),
        },
{
    let path = storage_path(req.nomefile.as_str());
    match req.op {
        Op::Read => FileAction::Read { path },
        Op::Create | Op::Update => FileAction::Write { path, content: filler_content() },
        Op::Delete => FileAction::Remove { path },
    }
}

/// The answer that carries `quoted`, whenever its UTF-8 length fits in
/// 32 bits.
pub fn quoted_answer(quoted: String) -> (r: String)
    ensures
        fits_string_array(seq![quoted@]) ==> r@ == quoted_answer_spec(quoted@),
{
    let ghost q = quoted@;
    let mut items: Vec<String> = Vec::new();
    items.push(quoted);
    assert(items@.map_values(|s: String| s@) =~= seq![q]);
    let bytes = encode_string_array(&items);
    byte_list_text_of(&bytes)
}

/// The answer to a read of a file with the given contents.
pub fn read_answer(contents: &str) -> (r: String)
    ensures
        read_answer_fits(contents@) ==> r@ == read_answer_spec(contents@),
{
    quoted_answer(debug_text(contents))
}

/// The answer that carries a text is one line: each character is an ASCII
/// digit, a comma followed by a space, or a space that follows a comma, so
/// it holds no line break; read back inside brackets it gives exactly the
/// MessagePack bytes of the one-element array that holds the text.
pub proof fn lemma_quoted_answer_is_one_line(quoted: Seq<char>)
    ensures
        forall|i: int| 0 <= i < quoted_answer_spec(quoted).len() ==> {
            ||| ('0' <= #[trigger] quoted_answer_spec(quoted)[i] && quoted_answer_spec(quoted)[i] <= '9')
            ||| (quoted_answer_spec(quoted)[i] == ',' && i + 1 < quoted_answer_spec(quoted).len()
                && quoted_answer_spec(quoted)[i + 1] == ' ')
            ||| (quoted_answer_spec(quoted)[i] == ' ' && i > 0 && quoted_answer_spec(quoted)[i - 1] == ',')
        },
        !quoted_answer_spec(quoted).contains('\n'),
        parse_byte_line_spec(seq!['['] + quoted_answer_spec(quoted) + seq![']'])
            == Some(string_array_bytes(seq![quoted])),
{
    let bytes = string_array_bytes(seq![quoted]);
    assert(bytes.len() > 0);
    lemma_byte_list_text_is_plain(bytes, '[', ']');
}

/// A read answer is one line of digits, commas and spaces as above, for
/// every file content.
pub proof fn lemma_read_answer_is_one_line(contents: Seq<char>)
    ensures
        forall|i: int| 0 <= i < read_answer_spec(contents).len() ==> {
            ||| ('0' <= #[trigger] read_answer_spec(contents)[i] && read_answer_spec(contents)[i] <= '9')
            ||| (read_answer_spec(contents)[i] == ',' && i + 1 < read_answer_spec(contents).len()
                && read_answer_spec(contents)[i + 1] == ' ')
            ||| (read_answer_spec(contents)[i] == ' ' && i > 0 && read_answer_spec(contents)[i - 1] == ',')
        },
        !read_answer_spec(contents).contains('\n'),
{
    lemma_quoted_answer_is_one_line(debug_repr(contents));
}

/// A read answer, framed by one character on each side, reads back as the
/// MessagePack bytes of the one-element array that holds the file's debug
/// text.
pub proof fn lemma_read_answer_reads_back(contents: Seq<char>, open: char, close: char)
    requires
        read_answer_fits(contents),
        (close as u32) < 128,
    ensures
        parse_byte_line_spec(seq![open] + read_answer_spec(contents) + seq![close])
            == Some(string_array_bytes(seq![debug_repr(contents)])),
{
    let bytes = string_array_bytes(seq![debug_repr(contents)]);
    assert(bytes.len() > 0);
    lemma_byte_list_roundtrip(bytes, open, close);
}

/// The answer once the disk work is done; `contents` is what a read found
/// and is not looked at for other actions.
pub fn answer_for(action: &FileAction, contents: &str) -> (r: String)
    ensures
        match action {
            FileAction::Read { .. } => read_answer_fits(contents@) ==> r@ == read_answer_spec(contents@),
            _ => r@ == success_spec(),
        },
{
    match action {
        FileAction::Read { .. } => read_answer(contents),
        _ => String::from_str("success"),
    }
}

/// A command carries the whole request id twice: as the suffix of the
/// file name, just before ` --id `, and after it, at the very end.
pub proof fn lemma_command_carries_id(op: Seq<char>, req_id: Seq<char>)
    ensures
        ({
            let c = invocation_command_spec(op, req_id);
            let n = req_id.len();
            &&& c.len() >= 2 * n + 6
            &&& c.subrange(c.len() - n, c.len() as int) == req_id
            &&& c.subrange(c.len() - n - 6, c.len() - n) == " --id "@
            &&& c.subrange(c.len() - 2 * n - 6, c.len() - n - 6) == req_id
            &&& c.subrange(c.len() - 2 * n - 11, c.len() - 2 * n - 6) == "prova"@
        }),
{
    reveal_strlit(" --id ");
    reveal_strlit(" --nomefile prova");
    reveal_strlit("prova");
    let x = function_program() + " --operation "@ + op;
    let c = invocation_command_spec(op, req_id);
    let n = req_id.len() as int;
    assert(c =~= x + " --nomefile prova"@ + req_id + " --id "@ + req_id);
    assert(c.subrange(c.len() - n, c.len() as int) =~= req_id);
    assert(c.subrange(c.len() - n - 6, c.len() - n) =~= " --id "@);
    assert(c.subrange(c.len() - 2 * n - 6, c.len() - n - 6) =~= req_id);
    assert(c.subrange(c.len() - 2 * n - 11, c.len() - 2 * n - 6) =~= "prova"@);
}

/// Different request ids never share a command.
pub proof fn lemma_command_injective(op: Seq<char>, a: Seq<char>, b: Seq<char>)
    ensures
        invocation_command_spec(op, a) == invocation_command_spec(op, b) ==> a == b,
{
    reveal_strlit(" --id ");
    reveal_strlit(" --nomefile prova");
    let x = function_program() + " --operation "@ + op + " --nomefile prova"@;
    assert(invocation_command_spec(op, a) =~= x + a + " --id "@ + a);
    assert(invocation_command_spec(op, b) =~= x + b + " --id "@ + b);
    lemma_command_carries_id(op, a);
    lemma_command_carries_id(op, b);
}

/// The shell command that serves a request with the given id.
pub fn invocation_command(op: &str, req_id: &str) -> (c: String)
    ensures
        c@ == invocation_command_spec(op@, req_id@),
{
    let mut c = String::from_str("../GenericFunctionWithFlag/target/debug/genericfunctionwithflag");
    c.append(" --operation ");
    c.append(op);
    c.append(" --nomefile prova");
    c.append(req_id);
    c.append(" --id ");
    c.append(req_id);
    c
}

/// The command that serves a message whose payload is the request id;
/// `None` when the payload is not UTF-8.
pub fn command_for_message(op: &str, payload: Vec<u8>) -> (r: Option<String>)
    ensures
        match r {
            Some(c) => valid_utf8(payload@) && c@ == invocation_command_spec(op@, decode_utf8(payload@)),
            None => !valid_utf8(payload@),
        },
{
    match utf8_text(payload) {
        Some(req_id) => Some(invocation_command(op, req_id.as_str())),
        None => None,
    }
}

/// Where the invoker listens and what it runs.
#[derive(Debug, Clone)]
pub struct InvokerSettings {
    pub nats_server: String,
    pub trigger: String,
    pub group: String,
    pub op: String,
}

impl InvokerSettings {
    /// The settings from the environment's values, each falling back to
    /// its default: server `192.168.150.81`, subject `topic2`, queue group
    /// `default`, operation `Delete`.
    pub fn resolve(
        nats_server: Option<String>,
        trigger: Option<String>,
        group: Option<String>,
        op: Option<String>,
    ) -> (s: InvokerSettings)
        ensures
            s.nats_server@ == setting_or_spec(opt_text(nats_server), "192.168.150.81"@),
            s.trigger@ == setting_or_spec(opt_text(trigger), "topic2"@),
            s.group@ == setting_or_spec(opt_text(group), "default"@),
            s.op@ == setting_or_spec(opt_text(op), "Delete"@),
    {
        InvokerSettings {
            nats_server: setting_or(nats_server, "192.168.150.81"),
            trigger: setting_or(trigger, "topic2"),
            group: setting_or(group, "default"),
            op: setting_or(op, "Delete"),
        }
    }
}

} // verus!
