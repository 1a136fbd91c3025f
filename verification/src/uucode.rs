//! UU encoding and decoding (`begin 644 name` ... `` ` `` / `end`).

use vstd::prelude::*;
use crate::text::{push_char, append_str, chars_of};

verus! {

/// The character that carries a 6-bit value: value + 32, with a back-quote
/// in place of the space.
pub open spec fn enc_char(x: u8) -> char {
    if x == 0 {
        '`'
    } else {
        ((x as int) + 32) as char
    }
}

/// The four characters for three bytes.
pub open spec fn enc_group(a: u8, b: u8, c: u8) -> Seq<char> {
    seq![
        enc_char(a >> 2),
        enc_char(((a & 3) << 4) | (b >> 4)),
        enc_char(((b & 15) << 2) | (c >> 6)),
        enc_char(c & 63),
    ]
}

/// Byte `i` of `s`, or 0 past its end.
pub open spec fn byte_or_zero(s: Seq<u8>, i: int) -> u8 {
    if 0 <= i < s.len() {
        s[i]
    } else {
        0
    }
}

/// The groups of a chunk: three bytes at a time, the last group padded with
/// zero bytes.
pub open spec fn enc_groups(chunk: Seq<u8>) -> Seq<char>
    decreases chunk.len(),
{
    if chunk.len() == 0 {
        Seq::empty()
    } else if chunk.len() <= 3 {
        enc_group(chunk[0], byte_or_zero(chunk, 1), byte_or_zero(chunk, 2))
    } else {
        enc_group(chunk[0], chunk[1], chunk[2]) + enc_groups(chunk.skip(3))
    }
}

/// One encoded line: a length character, then the groups.
pub open spec fn enc_line(chunk: Seq<u8>) -> Seq<char> {
    seq![((chunk.len() as int) + 32) as char] + enc_groups(chunk)
}

/// The encoded lines of `data`, 45 bytes per line.
pub open spec fn enc_lines(data: Seq<u8>) -> Seq<Seq<char>>
    decreases data.len(),
{
    if data.len() == 0 {
        Seq::empty()
    } else if data.len() <= 45 {
        seq![enc_line(data)]
    } else {
        seq![enc_line(data.take(45))] + enc_lines(data.skip(45))
    }
}

/// Lines joined, each followed by a newline.
pub open spec fn lines_text(ls: Seq<Seq<char>>) -> Seq<char>
    decreases ls.len(),
{
    if ls.len() == 0 {
        Seq::empty()
    } else {
        ls[0].push('\n') + lines_text(ls.drop_first())
    }
}

/// The header line naming the file.
pub open spec fn begin_line(name: Seq<char>) -> Seq<char> {
    "begin 644 "@ + name
}

/// All lines of the UU encoding of `data` under `name`.
pub open spec fn uu_lines(data: Seq<u8>, name: Seq<char>) -> Seq<Seq<char>> {
    seq![begin_line(name)] + enc_lines(data) + seq!["`"@, "end"@]
}

/// The UU encoding of `data` under the file name `name`.
pub open spec fn uu_text(data: Seq<u8>, name: Seq<char>) -> Seq<char> {
    lines_text(uu_lines(data, name))
}

fn enc_char_exec(x: u8) -> (c: char)
    requires
        x < 64,
    ensures
        c == enc_char(x),
{
    if x == 0 {
        '`'
    } else {
        let b: u8 = x + 32;
        b as char
    }
}

/// Appends the encoded line for `data[from..to]`.
fn push_line(out: &mut String, data: &[u8], from: usize, to: usize)
    requires
        from < to <= data@.len(),
        to - from <= 45,
    ensures
        final(out)@ == old(out)@ + enc_line(data@.subrange(from as int, to as int)).push('\n'),
{
    let ghost chunk = data@.subrange(from as int, to as int);
    let len: u8 = (to - from) as u8;
    let lb: u8 = len + 32;
    push_char(out, lb as char);
    assert(old(out)@.push(lb as char) =~= old(out)@ + seq![((chunk.len() as int) + 32) as char]);
    assert(chunk.skip(0) =~= chunk);
    let mut i = from;
    while i < to
        invariant
            from <= i <= to <= data@.len(),
            to - from <= 45,
            chunk == data@.subrange(from as int, to as int),
            out@ + enc_groups(chunk.skip(i - from)) == old(out)@ + enc_line(chunk),
        decreases to - i,
    {
        let ghost rest = chunk.skip(i - from);
        let a = data[i];
        let b = if to - i > 1 { data[i + 1] } else { 0 };
        let c = if to - i > 2 { data[i + 2] } else { 0 };
        assert(a >> 2 < 64) by (bit_vector);
        let g0 = enc_char_exec(a >> 2);
        assert(((a & 3) << 4) | (b >> 4) < 64) by (bit_vector);
        let g1 = enc_char_exec(((a & 3) << 4) | (b >> 4));
        assert(((b & 15) << 2) | (c >> 6) < 64) by (bit_vector);
        let g2 = enc_char_exec(((b & 15) << 2) | (c >> 6));
        assert(c & 63 < 64) by (bit_vector);
        let g3 = enc_char_exec(c & 63);
        let ghost before = out@;
        push_char(out, g0);
        push_char(out, g1);
        push_char(out, g2);
        push_char(out, g3);
        proof {
            assert(rest[0] == a);
            let g = enc_group(a, b, c);
            assert(out@ =~= before + g);
            if rest.len() <= 3 {
                assert(byte_or_zero(rest, 1) == b);
                assert(byte_or_zero(rest, 2) == c);
                assert(enc_groups(rest) == g);
            } else {
                assert(rest[1] == b && rest[2] == c);
                assert(rest.skip(3) =~= chunk.skip(i + 3 - from));
                assert(enc_groups(rest) == g + enc_groups(rest.skip(3)));
            }
        }
        i = if to - i > 3 { i + 3 } else { to };
        proof {
            if i == to {
                assert(chunk.skip(i - from) =~= Seq::<u8>::empty());
                assert(out@ + enc_groups(chunk.skip(i - from)) =~= out@);
            } else {
                assert((before + enc_group(a, b, c)) + enc_groups(chunk.skip(i - from)) =~= before + (enc_group(a, b, c) + enc_groups(chunk.skip(i - from))));
            }
        }
    }
    assert(chunk.skip(to - from) =~= Seq::<u8>::empty());
    assert(out@ + enc_groups(chunk.skip(to - from)) =~= out@);
    push_char(out, '\n');
}

/// UU encoding of `data` as the file `filename`: a `begin 644` header, lines
/// of up to 45 bytes, then a back-quote line and `end`.
pub fn uu_encode(data: &[u8], filename: &str) -> (r: String)
    ensures
        r@ == uu_text(data@, filename@),
{
    let mut out = String::new();
    append_str(&mut out, "begin 644 ");
    append_str(&mut out, filename);
    push_char(&mut out, '\n');
    let ghost head = out@;
    let mut i: usize = 0;
    assert(data@.skip(0) =~= data@);
    assert(out@ + lines_text(enc_lines(data@.skip(0))) == head + lines_text(enc_lines(data@)));
    while i < data.len()
        invariant
            i <= data@.len(),
            out@ + lines_text(enc_lines(data@.skip(i as int))) == head + lines_text(enc_lines(data@)),
        decreases data@.len() - i,
    {
        let ghost rest = data@.skip(i as int);
        let end = if data.len() - i > 45 { i + 45 } else { data.len() };
        let ghost before = out@;
        push_line(&mut out, data, i, end);
        proof {
            if rest.len() <= 45 {
                assert(data@.subrange(i as int, end as int) =~= rest);
                assert(enc_lines(rest) == seq![enc_line(rest)]);
                assert(seq![enc_line(rest)].drop_first() =~= Seq::<Seq<char>>::empty());
                assert(lines_text(seq![enc_line(rest)]) =~= enc_line(rest).push('\n') + lines_text(Seq::<Seq<char>>::empty()));
                assert(data@.skip(end as int) =~= Seq::<u8>::empty());
                assert(lines_text(enc_lines(data@.skip(end as int))) =~= Seq::<char>::empty());
                assert(out@ + lines_text(enc_lines(data@.skip(end as int))) =~= before + lines_text(enc_lines(rest)));
            } else {
                assert(data@.subrange(i as int, end as int) =~= rest.take(45));
                assert(rest.skip(45) =~= data@.skip(end as int));
                let ls = enc_lines(rest);
                assert(ls =~= seq![enc_line(rest.take(45))] + enc_lines(rest.skip(45)));
                assert(ls.drop_first() =~= enc_lines(rest.skip(45)));
                assert(out@ + lines_text(enc_lines(data@.skip(end as int))) =~= before + lines_text(enc_lines(rest)));
            }
        }
        i = end;
    }
    assert(data@.skip(i as int) =~= Seq::<u8>::empty());
    assert(out@ == head + lines_text(enc_lines(data@)));
    append_str(&mut out, "`\nend\n");
    proof {
        reveal_strlit("begin 644 ");
        reveal_strlit("`\nend\n");
        reveal_strlit("`");
        reveal_strlit("end");
        lemma_lines_text_concat(seq![begin_line(filename@)], enc_lines(data@));
        lemma_lines_text_concat(seq![begin_line(filename@)] + enc_lines(data@), seq!["`"@, "end"@]);
        assert(seq![begin_line(filename@)].drop_first() =~= Seq::<Seq<char>>::empty());
        assert(lines_text(seq![begin_line(filename@)]) =~= begin_line(filename@).push('\n') + lines_text(Seq::<Seq<char>>::empty()));
        assert(seq!["`"@, "end"@].drop_first() =~= seq!["end"@]);
        assert(lines_text(seq!["`"@, "end"@]) =~= "`"@.push('\n') + lines_text(seq!["end"@]));
        assert(seq!["end"@].drop_first() =~= Seq::<Seq<char>>::empty());
        assert(lines_text(seq!["end"@]) =~= "end"@.push('\n') + lines_text(Seq::<Seq<char>>::empty()));
        assert(out@ =~= uu_text(data@, filename@));
    }
    out
}

/// Joining two runs of lines joins their texts.
pub proof fn lemma_lines_text_concat(a: Seq<Seq<char>>, b: Seq<Seq<char>>)
    ensures
        lines_text(a + b) == lines_text(a) + lines_text(b),
    decreases a.len(),
{
    if a.len() == 0 {
        assert(a + b =~= b);
    } else {
        lemma_lines_text_concat(a.drop_first(), b);
        assert((a + b).drop_first() =~= a.drop_first() + b);
        assert(lines_text(a + b) =~= lines_text(a) + lines_text(b));
    }
}

/// Index of the first line at or after `j` that starts with `begin `.
pub open spec fn begin_from(ls: Seq<Seq<char>>, j: int) -> Option<int>
    decreases ls.len() - j,
{
    if j < 0 || j >= ls.len() {
        None
    } else if crate::text::has_prefix(ls[j], "begin "@) {
        Some(j)
    } else {
        begin_from(ls, j + 1)
    }
}

/// The file name on a header line: the text after its second space, or
/// `decoded` when there is none.
pub open spec fn header_name(line: Seq<char>) -> Seq<char> {
    let k1 = crate::text::index_of_or_len(line, ' ');
    let rest = line.skip(k1 + 1);
    let k2 = crate::text::index_of_or_len(rest, ' ');
    if k1 < line.len() && k2 < rest.len() {
        rest.skip(k2 + 1)
    } else {
        "decoded"@
    }
}

/// A back-quote stands for the space (value 0).
pub open spec fn unquote(b: u8) -> u8 {
    if b == 96 {
        32
    } else {
        b
    }
}

/// `b - 32` in 8-bit wrapping arithmetic.
pub open spec fn sub32(b: u8) -> u8 {
    ((b as int + 224) % 256) as u8
}

/// The bytes of the groups from position `i` on, while fewer than `count`
/// bytes were produced and a whole group of four characters remains.
pub open spec fn dec_groups(bs: Seq<u8>, i: int, count: nat, done: nat) -> Seq<u8>
    decreases bs.len() - i,
{
    if 0 <= i && done < count && i + 3 < bs.len() {
        let a = sub32(bs[i]);
        let b = sub32(bs[i + 1]);
        let c = sub32(bs[i + 2]);
        let d = sub32(bs[i + 3]);
        let all = seq![(a << 2) | (b >> 4), (b << 4) | (c >> 2), (c << 6) | d];
        let k: nat = if count - done < 3 { (count - done) as nat } else { 3 };
        all.take(k as int) + dec_groups(bs, i + 4, count, done + k)
    } else {
        Seq::empty()
    }
}

/// The bytes of one data line (its UTF-8 bytes, back-quotes read as spaces).
pub open spec fn line_bytes(line: Seq<char>) -> Seq<u8> {
    vstd::utf8::encode_utf8(line).map_values(|b: u8| unquote(b))
}

pub open spec fn dec_line(line: Seq<char>) -> Seq<u8> {
    let bs = line_bytes(line);
    dec_groups(bs, 1, sub32(bs[0]) as nat, 0)
}

/// The data of the lines from `i` on, up to a line `end` or a lone
/// back-quote; empty lines are skipped.
pub open spec fn dec_body(ls: Seq<Seq<char>>, i: int) -> Seq<u8>
    decreases ls.len() - i,
{
    if i < 0 || i >= ls.len() {
        Seq::empty()
    } else if ls[i] == "end"@ || ls[i] == "`"@ {
        Seq::empty()
    } else if ls[i].len() == 0 {
        dec_body(ls, i + 1)
    } else {
        dec_line(ls[i]) + dec_body(ls, i + 1)
    }
}

/// UU decoding of the lines of a text: the file name and data after the
/// first `begin ` line, or `None` when there is no such line.
pub open spec fn uu_decode_lines(ls: Seq<Seq<char>>) -> Option<(Seq<char>, Seq<u8>)> {
    match begin_from(ls, 0) {
        Some(j) => Some((header_name(ls[j]), dec_body(ls, j + 1))),
        None => None,
    }
}

pub open spec fn uu_decode_text(text: Seq<char>) -> Option<(Seq<char>, Seq<u8>)> {
    uu_decode_lines(crate::text::split_lines(text))
}

/// The file name of a header line.
fn header_name_exec(line: &String) -> (r: String)
    ensures
        r@ == header_name(line@),
{
    let v = chars_of(line.as_str());
    let mut k1: usize = 0;
    while k1 < v.len() && v[k1] != ' '
        invariant
            k1 <= v@.len(),
            forall|j: int| 0 <= j < k1 ==> v@[j] != ' ',
        decreases v@.len() - k1,
    {
        k1 += 1;
    }
    proof {
        crate::text::lemma_index_of_or_len_is(v@, ' ', k1 as int);
    }
    if k1 == v.len() {
        return crate::text::owned("decoded");
    }
    let mut k2: usize = k1 + 1;
    while k2 < v.len() && v[k2] != ' '
        invariant
            k1 < k2 <= v@.len(),
            forall|j: int| k1 < j < k2 ==> v@[j] != ' ',
        decreases v@.len() - k2,
    {
        k2 += 1;
    }
    let ghost rest = v@.skip(k1 + 1);
    proof {
        crate::text::lemma_index_of_or_len_is(rest, ' ', k2 - k1 - 1);
    }
    if k2 == v.len() {
        return crate::text::owned("decoded");
    }
    let len = v.len();
    let r = crate::text::string_of(v.as_slice(), k2 + 1, len);
    assert(r@ =~= rest.skip(k2 - k1));
    r
}

/// Whether a line is exactly `lit`.
fn line_is(line: &String, lit: &str) -> (r: bool)
    ensures
        r == (line@ == lit@),
{
    crate::text::str_equal(line.as_str(), lit)
}

fn sub32_exec(b: u8) -> (r: u8)
    ensures
        r == sub32(b),
{
    b.wrapping_sub(32)
}

/// Decodes one data line and appends its bytes.
fn push_line_data(out: &mut Vec<u8>, line: &String)
    requires
        line@.len() > 0,
    ensures
        final(out)@ == old(out)@ + dec_line(line@),
{
    let raw = line.as_str().as_bytes();
    let mut bs: Vec<u8> = Vec::new();
    let mut j: usize = 0;
    while j < raw.len()
        invariant
            j <= raw@.len(),
            raw@ == vstd::utf8::encode_utf8(line@),
            bs@ == raw@.take(j as int).map_values(|b: u8| unquote(b)),
        decreases raw@.len() - j,
    {
        let b = raw[j];
        bs.push(if b == 96 { 32 } else { b });
        j += 1;
        assert(bs@ =~= raw@.take(j as int).map_values(|b: u8| unquote(b)));
    }
    assert(raw@.take(raw@.len() as int) =~= raw@);
    assert(bs@ == line_bytes(line@));
    proof {
        vstd::utf8::encode_utf8_first_scalar(line@);
    }
    let count: usize = sub32_exec(bs[0]) as usize;
    let mut i: usize = 1;
    let mut done: usize = 0;
    let ghost start = old(out)@;
    assert(out@ + dec_groups(bs@, 1, count as nat, 0) == start + dec_line(line@));
    while done < count && i < bs.len() && bs.len() - i > 3
        invariant
            1 <= i <= bs@.len(),
            done <= count < 256,
            out@ + dec_groups(bs@, i as int, count as nat, done as nat) == start + dec_line(line@),
        decreases bs@.len() - i,
    {
        let a = sub32_exec(bs[i]);
        let b = sub32_exec(bs[i + 1]);
        let c = sub32_exec(bs[i + 2]);
        let d = sub32_exec(bs[i + 3]);
        let ghost all = seq![(a << 2) | (b >> 4), (b << 4) | (c >> 2), (c << 6) | d];
        let ghost before = out@;
        let ghost k: nat = if count - done < 3 { (count - done) as nat } else { 3 };
        if done < count {
            out.push((a << 2) | (b >> 4));
            done += 1;
        }
        if done < count {
            out.push((b << 4) | (c >> 2));
            done += 1;
        }
        if done < count {
            out.push((c << 6) | d);
            done += 1;
        }
        i += 4;
        assert(out@ =~= before + all.take(k as int));
    }
    assert(dec_groups(bs@, i as int, count as nat, done as nat) =~= Seq::<u8>::empty());
    assert(out@ =~= start + dec_line(line@));
}

/// UU decoding: the file name of the first `begin ` line and the data of the
/// lines after it; `None` when the text has no `begin ` line. A length or
/// data character below the space wraps around as in 8-bit arithmetic.
pub fn uu_decode(text: &str) -> (r: Option<(String, Vec<u8>)>)
    ensures
        match r {
            Some((n, d)) => uu_decode_text(text@) == Some((n@, d@)),
            None => uu_decode_text(text@) is None,
        },
{
    let v = chars_of(text);
    let lines = crate::text::lines_of(v.as_slice());
    let ghost ls = lines.deep_view();
    assert(ls == crate::text::split_lines(text@));
    let mut j: usize = 0;
    let begin_chars = chars_of("begin ");
    while j < lines.len()
        invariant
            j <= lines@.len(),
            ls == lines.deep_view(),
            begin_chars@ == "begin "@,
            begin_from(ls, 0) == begin_from(ls, j as int),
        ensures
            j <= lines@.len(),
            begin_from(ls, 0) == begin_from(ls, j as int),
            j < lines@.len() ==> crate::text::has_prefix(ls[j as int], "begin "@),
        decreases lines@.len() - j,
    {
        let lv = chars_of(lines[j].as_str());
        if crate::text::starts_with_chars(lv.as_slice(), begin_chars.as_slice()) {
            break;
        }
        j += 1;
    }
    if j == lines.len() {
        return None;
    }
    assert(begin_from(ls, j as int) == Some(j as int));
    let name = header_name_exec(&lines[j]);
    let mut data: Vec<u8> = Vec::new();
    let mut i = j + 1;
    assert(data@ + dec_body(ls, i as int) =~= dec_body(ls, j + 1));
    while i < lines.len()
        invariant_except_break
            j < i <= lines@.len(),
            ls == lines.deep_view(),
            data@ + dec_body(ls, i as int) == dec_body(ls, j + 1),
        ensures
            data@ == dec_body(ls, j + 1),
        decreases lines@.len() - i,
    {
        let line = &lines[i];
        assert(ls[i as int] == line@);
        if line_is(line, "end") || line_is(line, "`") {
            assert(data@ + dec_body(ls, i as int) =~= data@);
            break;
        }
        if line.as_str().unicode_len() != 0 {
            push_line_data(&mut data, line);
        }
        i += 1;
    }
    Some((name, data))
}

/// The 6-bit values of a group, each plus 32.
pub open spec fn group_bytes(a: u8, b: u8, c: u8) -> Seq<u8> {
    seq![
        ((a >> 2) + 32) as u8,
        ((((a & 3) << 4) | (b >> 4)) + 32) as u8,
        ((((b & 15) << 2) | (c >> 6)) + 32) as u8,
        ((c & 63) + 32) as u8,
    ]
}

pub open spec fn enc_group_bytes(chunk: Seq<u8>) -> Seq<u8>
    decreases chunk.len(),
{
    if chunk.len() == 0 {
        Seq::empty()
    } else if chunk.len() <= 3 {
        group_bytes(chunk[0], byte_or_zero(chunk, 1), byte_or_zero(chunk, 2))
    } else {
        group_bytes(chunk[0], chunk[1], chunk[2]) + enc_group_bytes(chunk.skip(3))
    }
}

proof fn lemma_enc_char_byte(x: u8)
    requires
        x < 64,
    ensures
        unquote(enc_char(x) as u8) == (x + 32) as u8,
        '\0' <= enc_char(x) <= '\u{7f}',
        enc_char(x) != '\n',
        enc_char(x) != '\r',
{
}

proof fn lemma_group_values(a: u8, b: u8, c: u8)
    ensures
        a >> 2 < 64,
        ((a & 3) << 4) | (b >> 4) < 64,
        ((b & 15) << 2) | (c >> 6) < 64,
        c & 63 < 64,
{
    assert(a >> 2 < 64) by (bit_vector);
    assert(((a & 3) << 4) | (b >> 4) < 64) by (bit_vector);
    assert(((b & 15) << 2) | (c >> 6) < 64) by (bit_vector);
    assert(c & 63 < 64) by (bit_vector);
}

/// The chars of the groups are ASCII, are no line break, and read back as
/// the values plus 32.
proof fn lemma_enc_groups_bytes(chunk: Seq<u8>)
    ensures
        enc_groups(chunk).map_values(|c: char| unquote(c as u8)) == enc_group_bytes(chunk),
        enc_groups(chunk).len() == enc_group_bytes(chunk).len(),
        forall|i: int| 0 <= i < enc_groups(chunk).len() ==> '\0' <= #[trigger] enc_groups(chunk)[i] <= '\u{7f}' && enc_groups(chunk)[i] != '\n' && enc_groups(chunk)[i] != '\r',
    decreases chunk.len(),
{
    if chunk.len() == 0 {
        assert(enc_groups(chunk).map_values(|c: char| unquote(c as u8)) =~= enc_group_bytes(chunk));
    } else {
        let a = chunk[0];
        let b = if chunk.len() <= 3 { byte_or_zero(chunk, 1) } else { chunk[1] };
        let c = if chunk.len() <= 3 { byte_or_zero(chunk, 2) } else { chunk[2] };
        lemma_group_values(a, b, c);
        lemma_enc_char_byte(a >> 2);
        lemma_enc_char_byte(((a & 3) << 4) | (b >> 4));
        lemma_enc_char_byte(((b & 15) << 2) | (c >> 6));
        lemma_enc_char_byte(c & 63);
        let g = enc_group(a, b, c);
        assert(g.map_values(|c: char| unquote(c as u8)) =~= group_bytes(a, b, c));
        if chunk.len() <= 3 {
            assert(enc_groups(chunk) == g);
        } else {
            lemma_enc_groups_bytes(chunk.skip(3));
            let r = enc_groups(chunk.skip(3));
            assert(enc_groups(chunk) == g + r);
            assert((g + r).map_values(|c: char| unquote(c as u8)) =~= g.map_values(|c: char| unquote(c as u8)) + r.map_values(|c: char| unquote(c as u8)));
            assert forall|i: int| 0 <= i < enc_groups(chunk).len() implies '\0' <= #[trigger] enc_groups(chunk)[i] <= '\u{7f}' && enc_groups(chunk)[i] != '\n' && enc_groups(chunk)[i] != '\r' by {
                if i >= 4 {
                    assert(enc_groups(chunk)[i] == r[i - 4]);
                }
            }
        }
    }
}

/// Decoding one group gives back its three bytes.
proof fn lemma_group_roundtrip(a: u8, b: u8, c: u8)
    ensures
        ({
            let g = group_bytes(a, b, c);
            let x = sub32(g[0]);
            let y = sub32(g[1]);
            let z = sub32(g[2]);
            let w = sub32(g[3]);
            (x << 2) | (y >> 4) == a && (y << 4) | (z >> 2) == b && (z << 6) | w == c
        }),
{
    lemma_group_values(a, b, c);
    let x = a >> 2;
    let y = ((a & 3) << 4) | (b >> 4);
    let z = ((b & 15) << 2) | (c >> 6);
    let w = c & 63;
    assert(sub32(((x + 32) as u8)) == x);
    assert(sub32(((y + 32) as u8)) == y);
    assert(sub32(((z + 32) as u8)) == z);
    assert(sub32(((w + 32) as u8)) == w);
    assert((x << 2) | (y >> 4) == a) by (bit_vector)
        requires x == a >> 2, y == ((a & 3) << 4) | (b >> 4);
    assert((y << 4) | (z >> 2) == b) by (bit_vector)
        requires y == ((a & 3) << 4) | (b >> 4), z == ((b & 15) << 2) | (c >> 6);
    assert((z << 6) | w == c) by (bit_vector)
        requires z == ((b & 15) << 2) | (c >> 6), w == c & 63;
}

/// The groups of a chunk decode back to the chunk.
proof fn lemma_dec_groups(bs: Seq<u8>, i: int, chunk: Seq<u8>, count: nat, done: nat)
    requires
        0 <= i,
        done <= count,
        count - done == chunk.len(),
        bs.len() == i + enc_group_bytes(chunk).len(),
        bs.skip(i) == enc_group_bytes(chunk),
    ensures
        dec_groups(bs, i, count, done) == chunk,
    decreases chunk.len(),
{
    if chunk.len() == 0 {
        assert(dec_groups(bs, i, count, done) =~= chunk);
    } else {
        let a = chunk[0];
        let b = if chunk.len() <= 3 { byte_or_zero(chunk, 1) } else { chunk[1] };
        let c = if chunk.len() <= 3 { byte_or_zero(chunk, 2) } else { chunk[2] };
        let g = group_bytes(a, b, c);
        lemma_group_roundtrip(a, b, c);
        let rest = if chunk.len() <= 3 { Seq::<u8>::empty() } else { chunk.skip(3) };
        assert(enc_group_bytes(chunk) == g + enc_group_bytes(rest)) by {
            if chunk.len() <= 3 {
                assert(g + enc_group_bytes(rest) =~= g);
            }
        }
        let eb = enc_group_bytes(chunk);
        assert(eb[0] == g[0] && eb[1] == g[1] && eb[2] == g[2] && eb[3] == g[3]);
        assert(bs.skip(i)[0] == bs[i]);
        assert(bs.skip(i)[1] == bs[i + 1]);
        assert(bs.skip(i)[2] == bs[i + 2]);
        assert(bs.skip(i)[3] == bs[i + 3]);
        let k: nat = if count - done < 3 { (count - done) as nat } else { 3 };
        let all = seq![a, b, c];
        assert(all.take(k as int) =~= chunk.take(k as int)) by {
            if chunk.len() >= 2 { assert(byte_or_zero(chunk, 1) == chunk[1]); }
            if chunk.len() >= 3 { assert(byte_or_zero(chunk, 2) == chunk[2]); }
        }
        assert(bs.skip(i + 4) =~= enc_group_bytes(rest)) by {
            assert forall|j: int| 0 <= j < enc_group_bytes(rest).len() implies bs.skip(i + 4)[j] == enc_group_bytes(rest)[j] by {
                assert(bs.skip(i + 4)[j] == bs.skip(i)[j + 4]);
                assert(eb[j + 4] == enc_group_bytes(rest)[j]);
            }
        }
        if chunk.len() <= 3 {
            lemma_dec_groups(bs, i + 4, rest, count, done + k);
            assert(chunk.take(k as int) =~= chunk);
        } else {
            lemma_dec_groups(bs, i + 4, rest, count, done + k);
        }
        assert(dec_groups(bs, i, count, done) == all.take(k as int) + dec_groups(bs, i + 4, count, done + k));
        assert(chunk =~= chunk.take(k as int) + rest);
    }
}

/// The encoded line of a chunk decodes back to the chunk; it is no line
/// break, no `end` and no lone back-quote.
proof fn lemma_line_roundtrip(chunk: Seq<u8>)
    requires
        1 <= chunk.len() <= 45,
    ensures
        dec_line(enc_line(chunk)) == chunk,
        enc_line(chunk).len() >= 5,
        forall|i: int| 0 <= i < enc_line(chunk).len() ==> #[trigger] enc_line(chunk)[i] != '\n' && enc_line(chunk)[i] != '\r',
{
    let line = enc_line(chunk);
    let gs = enc_groups(chunk);
    lemma_enc_groups_bytes(chunk);
    let lc = ((chunk.len() as int) + 32) as char;
    assert(line == seq![lc] + gs);
    assert(gs.len() >= 4) by {
        reveal_with_fuel(enc_groups, 2);
    }
    assert forall|i: int| 0 <= i < line.len() implies '\0' <= #[trigger] line[i] <= '\u{7f}' by {
        if i > 0 {
            assert(line[i] == gs[i - 1]);
        } else {
            assert(line[i] == lc);
        }
    }
    assert(vstd::utf8::is_ascii_chars(line));
    vstd::utf8::is_ascii_chars_encode_utf8(line);
    let bs = line_bytes(line);
    let eb = enc_group_bytes(chunk);
    assert(bs =~= seq![(chunk.len() + 32) as u8] + eb) by {
        assert forall|i: int| 0 <= i < bs.len() implies bs[i] == (seq![(chunk.len() + 32) as u8] + eb)[i] by {
            if i > 0 {
                assert(line[i] == gs[i - 1]);
                assert(gs.map_values(|c: char| unquote(c as u8))[i - 1] == eb[i - 1]);
            }
        }
    }
    assert(sub32(bs[0]) == chunk.len());
    assert(bs.skip(1) =~= eb);
    lemma_dec_groups(bs, 1, chunk, chunk.len(), 0);
    assert forall|i: int| 0 <= i < line.len() implies #[trigger] line[i] != '\n' && line[i] != '\r' by {
        if i > 0 {
            assert(line[i] == gs[i - 1]);
        }
    }
}

/// A line that `str::lines` gives back unchanged: no newline inside and no
/// carriage return at its end.
pub open spec fn plain_line(l: Seq<char>) -> bool {
    (forall|i: int| 0 <= i < l.len() ==> #[trigger] l[i] != '\n') && !(l.len() > 0 && l.last() == '\r')
}

/// Splitting joined plain lines gives the lines back.
pub proof fn lemma_split_lines_text(ls: Seq<Seq<char>>)
    requires
        forall|i: int| 0 <= i < ls.len() ==> plain_line(#[trigger] ls[i]),
    ensures
        crate::text::split_lines(lines_text(ls)) == ls,
    decreases ls.len(),
{
    if ls.len() == 0 {
        assert(crate::text::split_lines(lines_text(ls)) =~= ls);
    } else {
        let l = ls[0];
        assert(plain_line(l));
        let rest = ls.drop_first();
        assert forall|i: int| 0 <= i < rest.len() implies plain_line(#[trigger] rest[i]) by {
            assert(rest[i] == ls[i + 1]);
        }
        lemma_split_lines_text(rest);
        let s = lines_text(ls);
        assert(s == l.push('\n') + lines_text(rest));
        crate::text::lemma_index_of_or_len_is(s, '\n', l.len() as int);
        assert(s.take(l.len() as int) =~= l);
        assert(s.skip(l.len() as int + 1) =~= lines_text(rest));
        assert(crate::text::line_body(l, true) == l);
        assert(crate::text::split_lines(s) =~= seq![l] + rest);
        assert(seq![l] + rest =~= ls);
    }
}

/// The data lines decode back to the data, up to the back-quote line that
/// follows them.
proof fn lemma_dec_body(ls: Seq<Seq<char>>, i: int, data: Seq<u8>)
    requires
        0 <= i,
        i + enc_lines(data).len() < ls.len(),
        ls.subrange(i, i + enc_lines(data).len()) == enc_lines(data),
        ls[i + enc_lines(data).len()] == "`"@,
    ensures
        dec_body(ls, i) == data,
    decreases data.len(),
{
    reveal_strlit("`");
    reveal_strlit("end");
    if data.len() == 0 {
        assert(enc_lines(data).len() == 0);
        assert(dec_body(ls, i) =~= data);
    } else {
        let n: int = if data.len() <= 45 { data.len() as int } else { 45 };
        let chunk = data.take(n);
        let rest = data.skip(n);
        lemma_line_roundtrip(chunk);
        assert(enc_lines(data) =~= seq![enc_line(chunk)] + enc_lines(rest)) by {
            if data.len() <= 45 {
                assert(chunk =~= data);
                assert(rest.len() == 0);
            }
        }
        assert(ls[i] == enc_line(chunk)) by {
            assert(ls.subrange(i, i + enc_lines(data).len())[0] == ls[i]);
        }
        assert(ls[i] != "end"@) by {
            assert(enc_line(chunk).len() >= 5);
        }
        assert(ls[i] != "`"@);
        assert(ls.subrange(i + 1, i + 1 + enc_lines(rest).len()) =~= enc_lines(rest)) by {
            assert forall|j: int| 0 <= j < enc_lines(rest).len() implies ls.subrange(i + 1, i + 1 + enc_lines(rest).len())[j] == enc_lines(rest)[j] by {
                assert(ls.subrange(i, i + enc_lines(data).len())[j + 1] == enc_lines(data)[j + 1]);
            }
        }
        lemma_dec_body(ls, i + 1, rest);
        assert(data =~= chunk + rest);
    }
}

/// UU decoding reads back what UU encoding wrote: the file name and the
/// data, for any data and any file name that holds no newline and does not
/// end in a carriage return.
pub proof fn lemma_uu_roundtrip(data: Seq<u8>, name: Seq<char>)
    requires
        plain_line(name),
    ensures
        uu_decode_text(uu_text(data, name)) == Some((name, data)),
{
    reveal_strlit("begin 644 ");
    reveal_strlit("begin ");
    reveal_strlit("`");
    reveal_strlit("end");
    reveal_strlit("decoded");
    let ls = uu_lines(data, name);
    let el = enc_lines(data);
    let bl = begin_line(name);
    assert(plain_line(bl)) by {
        assert forall|i: int| 0 <= i < bl.len() implies #[trigger] bl[i] != '\n' by {
            if i >= 10 {
                assert(bl[i] == name[i - 10]);
            }
        }
        if name.len() > 0 {
            assert(bl.last() == name.last());
        }
    }
    assert forall|k: int| 0 <= k < el.len() implies plain_line(#[trigger] el[k]) by {
        lemma_enc_lines_plain(data, k);
    }
    assert forall|k: int| 0 <= k < ls.len() implies plain_line(#[trigger] ls[k]) by {
        if k == 0 {
            assert(ls[k] == bl);
        } else if k <= el.len() {
            assert(ls[k] == el[k - 1]);
        } else if k == el.len() + 1 {
            assert(ls[k] == "`"@);
        } else {
            assert(ls[k] == "end"@);
        }
    }
    lemma_split_lines_text(ls);
    assert(crate::text::has_prefix(ls[0], "begin "@)) by {
        assert(ls[0].take(6) =~= "begin "@);
    }
    assert(begin_from(ls, 0) == Some(0int));
    assert(header_name(bl) == name) by {
        crate::text::lemma_index_of_or_len_is(bl, ' ', 5);
        let rest = bl.skip(6);
        crate::text::lemma_index_of_or_len_is(rest, ' ', 3);
        assert(rest.skip(4) =~= name);
    }
    assert(ls.subrange(1, 1 + el.len() as int) =~= el);
    assert(ls[1 + el.len() as int] == "`"@);
    lemma_dec_body(ls, 1, data);
}

/// Every encoded data line is a plain line.
proof fn lemma_enc_lines_plain(data: Seq<u8>, k: int)
    requires
        0 <= k < enc_lines(data).len(),
    ensures
        plain_line(enc_lines(data)[k]),
    decreases data.len(),
{
    let n: int = if data.len() <= 45 { data.len() as int } else { 45 };
    let chunk = data.take(n);
    if data.len() <= 45 {
        assert(chunk =~= data);
    }
    lemma_line_roundtrip(chunk);
    if k == 0 {
        assert(enc_lines(data)[0] == enc_line(chunk));
        let l = enc_line(chunk);
        assert(l.last() == l[l.len() - 1]);
    } else {
        lemma_enc_lines_plain(data.skip(n), k - 1);
        assert(enc_lines(data)[k] == enc_lines(data.skip(n))[k - 1]);
    }
}

} // verus!
