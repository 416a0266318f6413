//! The text form in which a function process hands bytes to the invoker and
//! back: decimal bytes separated by commas, framed by one character on each
//! side when read (`[1, 2, 3]`), unframed when written (`1, 2, 3`).

use vstd::prelude::*;
use crate::decimal::{decimal, lemma_decimal_digits, parse_unsigned, parse_unsigned_spec, lemma_decimal_roundtrip, is_digit, push_decimal};
use crate::text::{chars_of, trim, trim_bounds, trim_start, trim_end, is_white_space};

verus! {

/// `s` cut at every comma, as `str::split(',')` cuts it: one more piece
/// than there are commas, empty pieces included.
pub open spec fn split_commas(s: Seq<char>) -> Seq<Seq<char>>
    decreases s.len(),
{
    if s.len() == 0 {
        seq![Seq::<char>::empty()]
    } else if s.last() == ',' {
        split_commas(s.drop_last()).push(Seq::<char>::empty())
    } else {
        let p = split_commas(s.drop_last());
        p.update(p.len() - 1, p.last().push(s.last()))
    }
}

/// The bytes that the pieces denote, each trimmed and read as a `u8`;
/// `None` as soon as one piece is not a byte.
pub open spec fn parse_fields(ps: Seq<Seq<char>>) -> Option<Seq<u8>>
    decreases ps.len(),
{
    if ps.len() == 0 {
        Some(Seq::<u8>::empty())
    } else {
        match parse_fields(ps.drop_last()) {
            Some(bs) => match parse_unsigned_spec(trim(ps.last()), 255) {
                Some(b) => Some(bs.push(b as u8)),
                None => None,
            },
            None => None,
        }
    }
}

/// Whether a line is long enough to lose its first character and then its
/// last one, the last being a one-byte (ASCII) character.
pub open spec fn is_framed(line: Seq<char>) -> bool {
    line.len() >= 2 && (line.last() as u32) < 128
}

/// The bytes that a framed line lists, or `None` when the line is not
/// framed or a piece is not a byte.
pub open spec fn parse_byte_line_spec(line: Seq<char>) -> Option<Seq<u8>> {
    if is_framed(line) {
        parse_fields(split_commas(line.subrange(1, line.len() - 1)))
    } else {
        None
    }
}

/// The text of a list of bytes: each in decimal, separated by `", "`.
pub open spec fn byte_list_text(bs: Seq<u8>) -> Seq<char>
    decreases bs.len(),
{
    if bs.len() == 0 {
        Seq::<char>::empty()
    } else if bs.len() == 1 {
        decimal(bs[0] as nat)
    } else {
        byte_list_text(bs.drop_last()) + seq![',', ' '] + decimal(bs.last() as nat)
    }
}

/// Why a line of bytes was refused.
#[derive(Debug, Clone, Copy, PartialEq, Eq)]
pub enum ByteLineError {
    /// The line is too short to drop a first and a last character, or its
    /// last character is not a single byte.
    Unframed,
    /// A comma-separated piece is not a decimal byte.
    InvalidByte,
}

proof fn lemma_split_nonempty(s: Seq<char>)
    ensures
        split_commas(s).len() >= 1,
    decreases s.len(),
{
    if s.len() > 0 {
        lemma_split_nonempty(s.drop_last());
    }
}

/// Reads the bytes that a line lists: drops the first and the last
/// character, cuts the rest at commas, trims each piece and reads it as a
/// `u8`.
pub fn parse_byte_line(line: &str) -> (r: Result<Vec<u8>, ByteLineError>)
    ensures
        match parse_byte_line_spec(line@) {
            Some(bs) => r matches Ok(v) && v@ == bs,
            None => r matches Err(e) && (e == ByteLineError::Unframed <==> !is_framed(line@)),
        },
{
    let v = chars_of(line);
    let n = v.len();
    if n < 2 || v[n - 1] as u32 >= 128 {
        return Err(ByteLineError::Unframed);
    }
    let ghost body = v@.subrange(1, n - 1);
    let mut out: Vec<u8> = Vec::new();
    let mut ok = true;
    let mut start: usize = 1;
    let mut k: usize = 1;
    let ghost mut done: Seq<Seq<char>> = Seq::empty();
    assert(body.take(0) =~= Seq::<char>::empty());
    assert(v@.subrange(1, 1) =~= Seq::<char>::empty());
    assert(done.push(Seq::<char>::empty()) =~= seq![Seq::<char>::empty()]);
    while k < n - 1
        invariant
            2 <= n == v@.len(),
            body == v@.subrange(1, n - 1),
            1 <= start <= k <= n - 1,
            split_commas(body.take(k - 1)) == done.push(v@.subrange(start as int, k as int)),
            ok ==> parse_fields(done) == Some(out@),
            !ok ==> parse_fields(done) is None,
        decreases n - 1 - k,
    {
        let ghost pre = body.take(k - 1);
        assert(body.take(k as int).drop_last() =~= pre);
        assert(body.take(k as int).last() == v@[k as int]);
        if v[k] == ',' {
            let (a, b) = trim_bounds(&v, start, k);
            let field = parse_unsigned(&v, a, b, 255);
            proof {
                let piece = v@.subrange(start as int, k as int);
                assert(done.push(piece).drop_last() =~= done);
                done = done.push(piece);
            }
            if ok {
                match field {
                    Some(b) => {
                        out.push(b as u8);
                    },
                    None => {
                        ok = false;
                    },
                }
            }
            start = k + 1;
            k = k + 1;
            assert(v@.subrange(start as int, k as int) =~= Seq::<char>::empty());
        } else {
            proof {
                lemma_split_nonempty(pre);
                assert(v@.subrange(start as int, k + 1) =~= v@.subrange(start as int, k as int).push(v@[k as int]));
            }
            k = k + 1;
            assert(split_commas(body.take(k - 1)) =~= done.push(v@.subrange(start as int, k as int)));
        }
    }
    let (a, b) = trim_bounds(&v, start, k);
    let field = parse_unsigned(&v, a, b, 255);
    let ghost last_piece = v@.subrange(start as int, k as int);
    assert(body.take(k - 1) =~= body);
    assert(done.push(last_piece).drop_last() =~= done);
    if !ok {
        return Err(ByteLineError::InvalidByte);
    }
    match field {
        Some(b) => {
            out.push(b as u8);
            Ok(out)
        },
        None => Err(ByteLineError::InvalidByte),
    }
}

/// The text of a list of bytes, each in decimal, separated by `", "`.
pub fn byte_list_text_of(bs: &Vec<u8>) -> (s: String)
    ensures
        s@ == byte_list_text(bs@),
{
    let mut s = String::new();
    let mut i: usize = 0;
    while i < bs.len()
        invariant
            i <= bs@.len(),
            s@ == byte_list_text(bs@.take(i as int)),
        decreases bs@.len() - i,
    {
        let ghost before = s@;
        if i > 0 {
            s.push(',');
            s.push(' ');
        }
        push_decimal(&mut s, bs[i] as u64);
        proof {
            let t = bs@.take(i + 1);
            assert(t.drop_last() =~= bs@.take(i as int));
            if i == 0 {
                assert(before =~= Seq::<char>::empty());
                assert(s@ =~= byte_list_text(t));
            } else {
                assert(s@ =~= byte_list_text(t));
            }
        }
        i = i + 1;
    }
    assert(bs@.take(bs@.len() as int) =~= bs@);
    s
}

proof fn lemma_split_comma_free_suffix(x: Seq<char>, y: Seq<char>)
    requires
        forall|i: int| 0 <= i < y.len() ==> y[i] != ',',
    ensures
        split_commas(x + y) == split_commas(x).update(
            split_commas(x).len() - 1,
            split_commas(x).last() + y,
        ),
    decreases y.len(),
{
    lemma_split_nonempty(x);
    if y.len() == 0 {
        assert(x + y =~= x);
        assert(split_commas(x).last() + y =~= split_commas(x).last());
        assert(split_commas(x).update(split_commas(x).len() - 1, split_commas(x).last())
            =~= split_commas(x));
    } else {
        let y0 = y.drop_last();
        lemma_split_comma_free_suffix(x, y0);
        assert((x + y).drop_last() =~= x + y0);
        assert((x + y).last() == y.last());
        let p = split_commas(x);
        assert(y.last() != ',');
        let q = split_commas(x + y0);
        assert(q == p.update(p.len() - 1, p.last() + y0));
        assert(q.last() == p.last() + y0);
        assert((p.last() + y0).push(y.last()) =~= p.last() + y);
        assert(split_commas(x + y) =~= p.update(p.len() - 1, p.last() + y));
    }
}

proof fn lemma_split_after_comma(x: Seq<char>, y: Seq<char>)
    requires
        forall|i: int| 0 <= i < y.len() ==> y[i] != ',',
    ensures
        split_commas(x + seq![','] + y) == split_commas(x).push(y),
{
    let xc = x.push(',');
    assert(x + seq![','] =~= xc);
    assert(xc.drop_last() =~= x);
    lemma_split_comma_free_suffix(xc, y);
    let p = split_commas(x).push(Seq::<char>::empty());
    assert(Seq::<char>::empty() + y =~= y);
    assert(p.update(p.len() - 1, y) =~= split_commas(x).push(y));
}

/// The pieces that the text of `bs` is cut into: the first byte's digits,
/// then a space and the digits of each further byte.
spec fn text_pieces(bs: Seq<u8>) -> Seq<Seq<char>> {
    Seq::new(bs.len(), |i: int| if i == 0 { decimal(bs[i] as nat) } else { seq![' '] + decimal(bs[i] as nat) })
}

proof fn lemma_decimal_plain(n: nat)
    ensures
        decimal(n).len() > 0,
        forall|i: int| 0 <= i < decimal(n).len() ==> is_digit(#[trigger] decimal(n)[i]),
        trim(decimal(n)) == decimal(n),
        trim(seq![' '] + decimal(n)) == decimal(n),
        forall|i: int| 0 <= i < (seq![' '] + decimal(n)).len() ==> (seq![' '] + decimal(n))[i] != ',',
{
    lemma_decimal_roundtrip(n);
    lemma_decimal_digits(n);
    let d = decimal(n);
    assert(is_digit(d[0]));
    assert(is_digit(d.last()));
    assert(trim_start(d) == d);
    assert(trim_end(d) == d);
    let sd = seq![' '] + d;
    assert(sd.drop_first() =~= d);
    assert(is_white_space(sd[0]));
    assert(trim_start(sd) == d);
    assert forall|i: int| 0 <= i < sd.len() implies sd[i] != ',' by {
        if i > 0 {
            assert(sd[i] == d[i - 1]);
            assert(is_digit(d[i - 1]));
        }
    }
}

proof fn lemma_split_text(bs: Seq<u8>)
    requires
        bs.len() > 0,
    ensures
        split_commas(byte_list_text(bs)) == text_pieces(bs),
    decreases bs.len(),
{
    if bs.len() == 1 {
        let d = decimal(bs[0] as nat);
        lemma_decimal_plain(bs[0] as nat);
        lemma_split_comma_free_suffix(Seq::<char>::empty(), d);
        assert(Seq::<char>::empty() + d =~= d);
        assert(split_commas(Seq::<char>::empty()) =~= seq![Seq::<char>::empty()]);
        assert(split_commas(d) =~= text_pieces(bs));
    } else {
        let b0 = bs.drop_last();
        lemma_split_text(b0);
        let y = seq![' '] + decimal(bs.last() as nat);
        lemma_decimal_plain(bs.last() as nat);
        assert(byte_list_text(bs) =~= byte_list_text(b0) + seq![','] + y);
        lemma_split_after_comma(byte_list_text(b0), y);
        assert(text_pieces(b0).push(y) =~= text_pieces(bs));
    }
}

proof fn lemma_parse_pieces(bs: Seq<u8>)
    ensures
        parse_fields(text_pieces(bs)) == Some(bs),
    decreases bs.len(),
{
    if bs.len() > 0 {
        let b0 = bs.drop_last();
        lemma_parse_pieces(b0);
        assert(text_pieces(bs).drop_last() =~= text_pieces(b0));
        lemma_decimal_plain(bs.last() as nat);
        lemma_decimal_roundtrip(bs.last() as nat);
        assert(b0.push(bs.last()) =~= bs);
    } else {
        assert(text_pieces(bs) =~= Seq::<Seq<char>>::empty());
        assert(bs =~= Seq::<u8>::empty());
    }
}

/// Reading back a written list of bytes, framed by one character on each
/// side, gives the same bytes; for every list that has at least one byte.
pub proof fn lemma_byte_list_roundtrip(bs: Seq<u8>, open: char, close: char)
    requires
        bs.len() > 0,
        (close as u32) < 128,
    ensures
        parse_byte_line_spec(seq![open] + byte_list_text(bs) + seq![close]) == Some(bs),
{
    let t = byte_list_text(bs);
    let line = seq![open] + t + seq![close];
    assert(line.subrange(1, line.len() - 1) =~= t);
    assert(line.last() == close);
    lemma_split_text(bs);
    lemma_parse_pieces(bs);
}

/// The pieces joined by single commas.
pub open spec fn join_commas(ps: Seq<Seq<char>>) -> Seq<char>
    decreases ps.len(),
{
    if ps.len() == 0 {
        Seq::<char>::empty()
    } else if ps.len() == 1 {
        ps[0]
    } else {
        join_commas(ps.drop_last()) + seq![','] + ps.last()
    }
}

/// Whether every character of `s` is white space.
pub open spec fn all_white(s: Seq<char>) -> bool {
    forall|i: int| 0 <= i < s.len() ==> is_white_space(#[trigger] s[i])
}

/// Each byte in decimal with white space before and after it.
pub open spec fn padded_pieces(bs: Seq<u8>, pre: Seq<Seq<char>>, post: Seq<Seq<char>>) -> Seq<Seq<char>> {
    Seq::new(bs.len(), |i: int| pre[i] + decimal(bs[i] as nat) + post[i])
}

proof fn lemma_split_join(ps: Seq<Seq<char>>)
    requires
        ps.len() >= 1,
        forall|j: int, i: int| 0 <= j < ps.len() && 0 <= i < ps[j].len() ==> #[trigger] ps[j][i] != ',',
    ensures
        split_commas(join_commas(ps)) == ps,
    decreases ps.len(),
{
    if ps.len() == 1 {
        let p = ps[0];
        assert(forall|i: int| 0 <= i < p.len() ==> p[i] != ',');
        lemma_split_comma_free_suffix(Seq::<char>::empty(), p);
        assert(Seq::<char>::empty() + p =~= p);
        assert(split_commas(Seq::<char>::empty()) =~= seq![Seq::<char>::empty()]);
        assert(split_commas(p) =~= ps);
    } else {
        let prev = ps.drop_last();
        assert forall|j: int, i: int| 0 <= j < prev.len() && 0 <= i < prev[j].len() implies #[trigger] prev[j][i] != ',' by {
            assert(prev[j] == ps[j]);
        }
        lemma_split_join(prev);
        let l = ps.last();
        assert(forall|i: int| 0 <= i < l.len() ==> l[i] != ',') by {
            assert forall|i: int| 0 <= i < l.len() implies l[i] != ',' by {
                assert(ps[ps.len() - 1][i] != ',');
            }
        }
        lemma_split_after_comma(join_commas(prev), l);
        assert(prev.push(l) =~= ps);
    }
}

proof fn lemma_trim_start_white_prefix(w: Seq<char>, x: Seq<char>)
    requires
        all_white(w),
    ensures
        trim_start(w + x) == trim_start(x),
    decreases w.len(),
{
    if w.len() > 0 {
        assert((w + x)[0] == w[0]);
        assert((w + x).drop_first() =~= w.drop_first() + x);
        assert(all_white(w.drop_first())) by {
            assert forall|i: int| 0 <= i < w.drop_first().len() implies is_white_space(#[trigger] w.drop_first()[i]) by {
                assert(w.drop_first()[i] == w[i + 1]);
            }
        }
        lemma_trim_start_white_prefix(w.drop_first(), x);
    } else {
        assert(w + x =~= x);
    }
}

proof fn lemma_trim_end_white_suffix(x: Seq<char>, w: Seq<char>)
    requires
        all_white(w),
    ensures
        trim_end(x + w) == trim_end(x),
    decreases w.len(),
{
    if w.len() > 0 {
        assert((x + w).last() == w.last());
        assert((x + w).drop_last() =~= x + w.drop_last());
        assert(all_white(w.drop_last())) by {
            assert forall|i: int| 0 <= i < w.drop_last().len() implies is_white_space(#[trigger] w.drop_last()[i]) by {
                assert(w.drop_last()[i] == w[i]);
            }
        }
        lemma_trim_end_white_suffix(x, w.drop_last());
    } else {
        assert(x + w =~= x);
    }
}

proof fn lemma_padded_piece(pre: Seq<char>, n: nat, post: Seq<char>)
    requires
        all_white(pre),
        all_white(post),
    ensures
        trim(pre + decimal(n) + post) == decimal(n),
        forall|i: int| 0 <= i < (pre + decimal(n) + post).len() ==> #[trigger] (pre + decimal(n) + post)[i] != ',',
{
    lemma_decimal_plain(n);
    let d = decimal(n);
    assert(pre + d + post =~= pre + (d + post));
    lemma_trim_start_white_prefix(pre, d + post);
    assert((d + post)[0] == d[0]);
    assert(is_digit(d[0]));
    assert(trim_start(d + post) == d + post);
    lemma_trim_end_white_suffix(d, post);
    assert(is_digit(d.last()));
    assert(trim_end(d) == d);
    let p = pre + d + post;
    assert forall|i: int| 0 <= i < p.len() implies #[trigger] p[i] != ',' by {
        if i < pre.len() {
            assert(p[i] == pre[i]);
            assert(is_white_space(pre[i]));
        } else if i < pre.len() + d.len() {
            assert(p[i] == d[i - pre.len()]);
            assert(is_digit(d[i - pre.len()]));
        } else {
            assert(p[i] == post[i - pre.len() - d.len()]);
            assert(is_white_space(post[i - pre.len() - d.len()]));
        }
    }
}

proof fn lemma_parse_padded(bs: Seq<u8>, pre: Seq<Seq<char>>, post: Seq<Seq<char>>)
    requires
        pre.len() == bs.len(),
        post.len() == bs.len(),
        forall|i: int| 0 <= i < bs.len() ==> all_white(#[trigger] pre[i]) && all_white(post[i]),
    ensures
        parse_fields(padded_pieces(bs, pre, post)) == Some(bs),
    decreases bs.len(),
{
    if bs.len() > 0 {
        let k = bs.len() - 1;
        let b0 = bs.drop_last();
        let pre0 = pre.drop_last();
        let post0 = post.drop_last();
        assert forall|i: int| 0 <= i < b0.len() implies all_white(#[trigger] pre0[i]) && all_white(post0[i]) by {
            assert(pre0[i] == pre[i] && post0[i] == post[i]);
        }
        lemma_parse_padded(b0, pre0, post0);
        assert(padded_pieces(bs, pre, post).drop_last() =~= padded_pieces(b0, pre0, post0));
        assert(all_white(pre[k]) && all_white(post[k]));
        lemma_padded_piece(pre[k], bs[k] as nat, post[k]);
        lemma_decimal_roundtrip(bs[k] as nat);
        assert(b0.push(bs.last()) =~= bs);
    } else {
        assert(padded_pieces(bs, pre, post) =~= Seq::<Seq<char>>::empty());
        assert(bs =~= Seq::<u8>::empty());
    }
}

/// Any line that lists at least one byte in decimal, pieces separated by
/// commas with any white space around each number, framed by any first
/// character and an ASCII last one, reads back as those bytes.
pub proof fn lemma_padded_byte_line(
    bs: Seq<u8>,
    pre: Seq<Seq<char>>,
    post: Seq<Seq<char>>,
    open: char,
    close: char,
)
    requires
        bs.len() > 0,
        pre.len() == bs.len(),
        post.len() == bs.len(),
        forall|i: int| 0 <= i < bs.len() ==> all_white(#[trigger] pre[i]) && all_white(post[i]),
        (close as u32) < 128,
    ensures
        parse_byte_line_spec(seq![open] + join_commas(padded_pieces(bs, pre, post)) + seq![close]) == Some(bs),
{
    let ps = padded_pieces(bs, pre, post);
    let t = join_commas(ps);
    let line = seq![open] + t + seq![close];
    assert(line.subrange(1, line.len() - 1) =~= t);
    assert(line.last() == close);
    assert forall|j: int, i: int| 0 <= j < ps.len() && 0 <= i < ps[j].len() implies #[trigger] ps[j][i] != ',' by {
        assert(all_white(pre[j]) && all_white(post[j]));
        lemma_padded_piece(pre[j], bs[j] as nat, post[j]);
    }
    lemma_split_join(ps);
    lemma_parse_padded(bs, pre, post);
}

/// Whether every character is a digit, a comma followed by a space, or a
/// space that follows a comma.
spec fn comma_space_shaped(t: Seq<char>) -> bool {
    forall|i: int| 0 <= i < t.len() ==> {
        ||| is_digit(#[trigger] t[i])
        ||| (t[i] == ',' && i + 1 < t.len() && t[i + 1] == ' ')
        ||| (t[i] == ' ' && i > 0 && t[i - 1] == ',')
    }
}

proof fn lemma_text_shaped(bs: Seq<u8>)
    ensures
        comma_space_shaped(byte_list_text(bs)),
        bs.len() > 0 ==> is_digit(byte_list_text(bs)[0]) && is_digit(byte_list_text(bs).last()),
    decreases bs.len(),
{
    if bs.len() == 1 {
        lemma_decimal_digits(bs[0] as nat);
        let d = decimal(bs[0] as nat);
        assert(is_digit(d[0]) && is_digit(d[d.len() - 1]));
    } else if bs.len() > 1 {
        let b0 = bs.drop_last();
        lemma_text_shaped(b0);
        lemma_decimal_digits(bs.last() as nat);
        let t0 = byte_list_text(b0);
        let d = decimal(bs.last() as nat);
        let t = byte_list_text(bs);
        assert(t == t0 + seq![',', ' '] + d);
        assert forall|i: int| 0 <= i < t.len() implies {
            ||| is_digit(#[trigger] t[i])
            ||| (t[i] == ',' && i + 1 < t.len() && t[i + 1] == ' ')
            ||| (t[i] == ' ' && i > 0 && t[i - 1] == ',')
        } by {
            if i < t0.len() {
                assert(t[i] == t0[i]);
                if t0[i] == ',' {
                    if i + 1 < t0.len() {
                        assert(t[i + 1] == t0[i + 1]);
                    } else {
                        assert(is_digit(t0[t0.len() - 1]));
                    }
                }
                if t0[i] == ' ' && i > 0 {
                    assert(t[i - 1] == t0[i - 1]);
                }
            } else if i == t0.len() {
                assert(t[i] == ',' && t[i + 1] == ' ');
            } else if i == t0.len() + 1 {
                assert(t[i] == ' ' && t[i - 1] == ',');
            } else {
                assert(t[i] == d[i - t0.len() - 2]);
                assert(is_digit(d[i - t0.len() - 2]));
            }
        }
        assert(t[0] == t0[0]);
        assert(t.last() == d.last());
    }
}

/// The written text of a byte list is one line of plain characters: every
/// character is an ASCII digit, a comma followed by a space, or a space
/// that follows a comma; there is no line break or other separator. Read
/// back inside a frame, it gives the bytes again.
pub proof fn lemma_byte_list_text_is_plain(bs: Seq<u8>, open: char, close: char)
    requires
        (close as u32) < 128,
    ensures
        forall|i: int| 0 <= i < byte_list_text(bs).len() ==> {
            ||| ('0' <= #[trigger] byte_list_text(bs)[i] && byte_list_text(bs)[i] <= '9')
            ||| (byte_list_text(bs)[i] == ',' && i + 1 < byte_list_text(bs).len()
                && byte_list_text(bs)[i + 1] == ' ')
            ||| (byte_list_text(bs)[i] == ' ' && i > 0 && byte_list_text(bs)[i - 1] == ',')
        },
        !byte_list_text(bs).contains('\n'),
        bs.len() > 0 ==> parse_byte_line_spec(seq![open] + byte_list_text(bs) + seq![close]) == Some(bs),
{
    lemma_text_shaped(bs);
    let t = byte_list_text(bs);
    if t.contains('\n') {
        let i = choose|i: int| 0 <= i < t.len() && t[i] == '\n';
        assert(is_digit(t[i]) || t[i] == ',' || t[i] == ' ');
    }
    if bs.len() > 0 {
        lemma_byte_list_roundtrip(bs, open, close);
    }
}

} // verus!
