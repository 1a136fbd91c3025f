//! File operations: what needs no file system access.

use vstd::prelude::*;
use crate::numfmt::{decimal, u64_to_decimal};
use crate::history::texts;
use crate::splitfile::path_exists;
use crate::text::append_str;

verus! {

/// Free and total space of the file system at a path; not known here, so
/// always `None`.
pub fn disk_info(_path: &str) -> (r: Option<(u64, u64)>)
    ensures
        r is None,
{
    None
}

/// The texts joined with `sep` between each two.
pub open spec fn joined_by(items: Seq<Seq<char>>, sep: Seq<char>) -> Seq<char>
    decreases items.len(),
{
    if items.len() == 0 {
        Seq::empty()
    } else if items.len() == 1 {
        items[0]
    } else {
        joined_by(items.drop_last(), sep) + sep + items.last()
    }
}

/// The texts joined with `sep` between each two (`[..].join(sep)`).
pub fn join_texts(items: &Vec<String>, sep: &str) -> (r: String)
    ensures
        r@ == joined_by(texts(items@), sep@),
{
    let ghost es = texts(items@);
    let mut out = String::new();
    if items.len() == 0 {
        assert(out@ =~= joined_by(es, sep@));
        return out;
    }
    append_str(&mut out, items[0].as_str());
    let mut i: usize = 1;
    assert(es.take(1).drop_last() =~= Seq::<Seq<char>>::empty());
    assert(out@ =~= joined_by(es.take(1), sep@));
    while i < items.len()
        invariant
            1 <= i <= items@.len(),
            es == texts(items@),
            out@ == joined_by(es.take(i as int), sep@),
        decreases items@.len() - i,
    {
        append_str(&mut out, sep);
        append_str(&mut out, items[i].as_str());
        assert(es.take(i + 1).drop_last() =~= es.take(i as int));
        assert(es.take(i + 1).last() == items@[i as int]@);
        assert(out@ =~= joined_by(es.take(i + 1), sep@));
        i += 1;
    }
    assert(es.take(items@.len() as int) =~= es);
    out
}

/// The text of a file list: the paths, one per line, without a newline
/// after the last.
pub fn file_list_text(paths: &Vec<String>) -> (r: String)
    ensures
        r@ == joined_by(texts(paths@), seq!['\n']),
{
    let r = join_texts(paths, "\n");
    proof {
        reveal_strlit("\n");
        assert("\n"@ =~= seq!['\n']);
    }
    r
}

/// The first of `names` whose flag in `flags` is set.
pub open spec fn first_flagged(names: Seq<Seq<char>>, flags: Seq<bool>) -> Option<Seq<char>>
    decreases names.len(),
{
    if names.len() == 0 || flags.len() == 0 {
        None
    } else if flags[0] {
        Some(names[0])
    } else {
        first_flagged(names.drop_first(), flags.drop_first())
    }
}

/// The first name that would be overwritten, given for each name whether
/// something of that name exists at the destination.
pub fn first_conflict(names: &Vec<String>, exists: &Vec<bool>) -> (r: Option<String>)
    requires
        names@.len() == exists@.len(),
    ensures
        slot_text(r) == first_flagged(texts(names@), exists@),
{
    let ghost ns = texts(names@);
    let mut i: usize = 0;
    assert(ns.skip(0) =~= ns);
    assert(exists@.skip(0) =~= exists@);
    while i < names.len()
        invariant
            i <= names@.len(),
            names@.len() == exists@.len(),
            ns == texts(names@),
            first_flagged(ns, exists@) == first_flagged(ns.skip(i as int), exists@.skip(i as int)),
        decreases names@.len() - i,
    {
        assert(ns.skip(i as int).drop_first() =~= ns.skip(i + 1));
        assert(exists@.skip(i as int).drop_first() =~= exists@.skip(i + 1));
        if exists[i] {
            return Some(crate::text::owned(names[i].as_str()));
        }
        i += 1;
    }
    None
}

/// An optional text as plain values.
pub open spec fn slot_text(o: Option<String>) -> Option<Seq<char>> {
    match o {
        Some(t) => Some(t@),
        None => None,
    }
}

/// The first of `names` that already exists in directory `dest`, so that
/// copying or moving there would overwrite it. Whether something exists
/// is asked of the file system: the result is what `first_conflict` gives
/// for some answers.
pub fn first_overwrite_conflict_name(names: &Vec<String>, dest: &str) -> (r: Option<String>)
    ensures
        exists|flags: Seq<bool>|
            flags.len() == names@.len() && slot_text(r) == #[trigger] first_flagged(texts(names@), flags),
{
    let mut flags: Vec<bool> = Vec::new();
    let mut i: usize = 0;
    while i < names.len()
        invariant
            i <= names@.len(),
            flags@.len() == i,
        decreases names@.len() - i,
    {
        let target = crate::paths::join_path(dest, names[i].as_str());
        flags.push(path_exists(target.as_str()));
        i += 1;
    }
    let r = first_conflict(names, &flags);
    assert(flags@.len() == names@.len() && slot_text(r) == first_flagged(texts(names@), flags@));
    r
}

/// What is reported after an operation on `count` entries: `verb`, the
/// count and "file(s)" when there was no error; else the errors joined by
/// "; ".
pub open spec fn report_text(verb: Seq<char>, count: nat, errors: Seq<Seq<char>>) -> Seq<char> {
    if errors.len() == 0 {
        verb + " "@ + decimal(count) + " file(s)"@
    } else {
        joined_by(errors, "; "@)
    }
}

/// The report of an operation (`verb` such as "Copied") on `count`
/// entries with the errors it met.
pub fn operation_report(verb: &str, count: usize, errors: &Vec<String>) -> (r: String)
    ensures
        r@ == report_text(verb@, count as nat, texts(errors@)),
{
    let ghost es = texts(errors@);
    let mut out = String::new();
    if errors.len() == 0 {
        append_str(&mut out, verb);
        append_str(&mut out, " ");
        let n = u64_to_decimal(count as u64);
        append_str(&mut out, n.as_str());
        append_str(&mut out, " file(s)");
        assert(out@ =~= report_text(verb@, count as nat, es));
        return out;
    }
    let joined = join_texts(errors, "; ");
    proof {
        reveal_strlit("; ");
    }
    joined
}

} // verus!
