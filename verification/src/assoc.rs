//! File associations (`assoc.txt`: `.ext = command`) and file descriptions
//! (`DESCRIPT.ION`: a name, a space, a description).

use vstd::prelude::*;
use crate::paths::{extension, file_stem};
use crate::text::{chars_of, index_of_or_len, lowercase, owned, push_char, replace_all, split_lines, string_of, trim, trim_char};

verus! {

/// The association a line of `assoc.txt` gives: blank lines and lines
/// starting with `#` give none, nor do lines without `=`; else the
/// lower-cased trimmed text before the first `=` and the trimmed text after.
pub open spec fn assoc_of_line(l: Seq<char>) -> Option<(Seq<char>, Seq<char>)> {
    let k = index_of_or_len(l, '=');
    if trim(l).len() == 0 || (l.len() > 0 && l[0] == '#') || k >= l.len() {
        None
    } else {
        Some((lowercase(trim(l.take(k))), trim(l.skip(k + 1))))
    }
}

/// The association of one line as a sequence of none or one pair.
pub open spec fn assoc_piece(l: Seq<char>) -> Seq<(Seq<char>, Seq<char>)> {
    match assoc_of_line(l) {
        Some(p) => seq![p],
        None => Seq::empty(),
    }
}

/// The associations of some lines, in order.
pub open spec fn assocs_from(ls: Seq<Seq<char>>) -> Seq<(Seq<char>, Seq<char>)>
    decreases ls.len(),
{
    if ls.len() == 0 {
        Seq::empty()
    } else {
        assoc_piece(ls[0]) + assocs_from(ls.drop_first())
    }
}

/// The associations the text of `assoc.txt` gives.
pub open spec fn parse_associations(content: Seq<char>) -> Seq<(Seq<char>, Seq<char>)> {
    assocs_from(split_lines(content))
}

/// The pairs as plain values.
pub open spec fn pairs_view(v: Seq<(String, String)>) -> Seq<(Seq<char>, Seq<char>)> {
    v.map_values(|p: (String, String)| (p.0@, p.1@))
}

proof fn lemma_assocs_push(ls: Seq<Seq<char>>, l: Seq<char>)
    ensures
        assocs_from(ls.push(l)) == assocs_from(ls) + assoc_piece(l),
    decreases ls.len(),
{
    let lp = ls.push(l);
    if ls.len() == 0 {
        assert(lp[0] == l);
        assert(lp.drop_first() =~= Seq::<Seq<char>>::empty());
        assert(assocs_from(lp.drop_first()) == Seq::<(Seq<char>, Seq<char>)>::empty());
        assert(assocs_from(lp) == assoc_piece(l) + Seq::<(Seq<char>, Seq<char>)>::empty());
        assert(assoc_piece(l) + Seq::<(Seq<char>, Seq<char>)>::empty() =~= Seq::<(Seq<char>, Seq<char>)>::empty() + assoc_piece(l));
    } else {
        assert(lp[0] == ls[0]);
        assert(lp.drop_first() =~= ls.drop_first().push(l));
        lemma_assocs_push(ls.drop_first(), l);
        assert(assocs_from(lp) == assoc_piece(ls[0]) + assocs_from(lp.drop_first()));
        assert(assoc_piece(ls[0]) + (assocs_from(ls.drop_first()) + assoc_piece(l)) =~= (assoc_piece(ls[0]) + assocs_from(ls.drop_first())) + assoc_piece(l));
    }
}

/// The position of the first `c` in `v`, or its length.
fn index_of_exec(v: &Vec<char>, c: char) -> (k: usize)
    ensures
        k == index_of_or_len(v@, c),
{
    let mut k: usize = 0;
    while k < v.len() && v[k] != c
        invariant
            k <= v@.len(),
            forall|j: int| 0 <= j < k ==> v@[j] != c,
        decreases v@.len() - k,
    {
        k += 1;
    }
    proof {
        crate::text::lemma_index_of_or_len_is(v@, c, k as int);
    }
    k
}

/// The association of one line.
fn assoc_line(l: &String) -> (r: Option<(String, String)>)
    ensures
        match r {
            Some(p) => assoc_of_line(l@) == Some((p.0@, p.1@)),
            None => assoc_of_line(l@) is None,
        },
{
    let v = chars_of(l.as_str());
    let k = index_of_exec(&v, '=');
    let t = crate::text::trim_str(l.as_str());
    if chars_of(t.as_str()).len() == 0 || (v.len() > 0 && v[0] == '#') || k >= v.len() {
        return None;
    }
    let key = string_of(v.as_slice(), 0, k);
    let value = string_of(v.as_slice(), k + 1, v.len());
    assert(key@ =~= l@.take(k as int));
    assert(value@ =~= l@.skip(k + 1));
    let key_t = crate::text::trim_str(key.as_str());
    let key_l = crate::text::to_lower(key_t.as_str());
    let value_t = crate::text::trim_str(value.as_str());
    Some((key_l, value_t))
}

/// The associations in the text of `assoc.txt`.
pub fn load_associations(content: &str) -> (r: Vec<(String, String)>)
    ensures
        pairs_view(r@) == parse_associations(content@),
{
    let chars = chars_of(content);
    let lines = crate::text::lines_of(chars.as_slice());
    let ghost ls = lines.deep_view();
    let mut out: Vec<(String, String)> = Vec::new();
    let mut i: usize = 0;
    assert(ls.take(0) =~= Seq::<Seq<char>>::empty());
    while i < lines.len()
        invariant
            i <= lines@.len(),
            ls == lines.deep_view(),
            pairs_view(out@) == assocs_from(ls.take(i as int)),
        decreases lines@.len() - i,
    {
        assert(ls[i as int] == lines@[i as int]@);
        let r = assoc_line(&lines[i]);
        proof {
            assert(ls.take(i + 1) =~= ls.take(i as int).push(ls[i as int]));
            lemma_assocs_push(ls.take(i as int), ls[i as int]);
        }
        match r {
            Some(p) => {
                let ghost before = out@;
                out.push(p);
                assert(pairs_view(out@) =~= pairs_view(before) + seq![(out@.last().0@, out@.last().1@)]);
            },
            None => {
                assert(pairs_view(out@) =~= pairs_view(out@) + Seq::<(Seq<char>, Seq<char>)>::empty());
            },
        }
        i += 1;
    }
    assert(ls.take(lines@.len() as int) =~= ls);
    out
}

/// The key a file is looked up under: a dot and its lower-cased
/// extension, or empty when it has none.
pub open spec fn assoc_key(path: Seq<char>) -> Seq<char> {
    match extension(path) {
        Some(e) => seq!['.'] + lowercase(e),
        None => Seq::empty(),
    }
}

/// The command template of the first association for `key`.
pub open spec fn first_template(assocs: Seq<(Seq<char>, Seq<char>)>, key: Seq<char>) -> Option<Seq<char>>
    decreases assocs.len(),
{
    if assocs.len() == 0 {
        None
    } else if assocs[0].0 == key {
        Some(assocs[0].1)
    } else {
        first_template(assocs.drop_first(), key)
    }
}

/// The command that opens the file at `path` (named `name`, in `dir`):
/// the template of the first association for its extension, with `%f`
/// replaced by the name, `%d` by the directory and `%n` by the file stem.
pub open spec fn association_command_of(
    assocs: Seq<(Seq<char>, Seq<char>)>,
    path: Seq<char>,
    name: Seq<char>,
    dir: Seq<char>,
) -> Option<Seq<char>> {
    match first_template(assocs, assoc_key(path)) {
        Some(t) => {
            let stem = match file_stem(path) {
                Some(s) => s,
                None => Seq::empty(),
            };
            Some(replace_all(replace_all(replace_all(t, "%f"@, name), "%d"@, dir), "%n"@, stem))
        },
        None => None,
    }
}

/// The command associated with the file at `path`, if any.
pub fn association_command(assocs: &Vec<(String, String)>, path: &str, name: &str, dir: &str) -> (r: Option<String>)
    ensures
        match r {
            Some(c) => association_command_of(pairs_view(assocs@), path@, name@, dir@) == Some(c@),
            None => association_command_of(pairs_view(assocs@), path@, name@, dir@) is None,
        },
{
    proof {
        reveal_strlit("%f");
        reveal_strlit("%d");
        reveal_strlit("%n");
    }
    let key = match crate::paths::extension_of(path) {
        Some(e) => {
            let mut k = String::new();
            push_char(&mut k, '.');
            let low = crate::text::to_lower(e.as_str());
            crate::text::append_str(&mut k, low.as_str());
            k
        },
        None => String::new(),
    };
    let ghost av = pairs_view(assocs@);
    let mut i: usize = 0;
    assert(av.skip(0) =~= av);
    while i < assocs.len()
        invariant
            i <= assocs@.len(),
            av == pairs_view(assocs@),
            key@ == assoc_key(path@),
            first_template(av, key@) == first_template(av.skip(i as int), key@),
        decreases assocs@.len() - i,
    {
        assert(av.skip(i as int).drop_first() =~= av.skip(i + 1));
        if crate::text::str_equal(assocs[i].0.as_str(), key.as_str()) {
            proof {
                reveal_strlit("%f");
                reveal_strlit("%d");
                reveal_strlit("%n");
            }
            let stem = match crate::paths::file_stem_of(path) {
                Some(s) => s,
                None => String::new(),
            };
            let a = crate::text::replace_str(assocs[i].1.as_str(), "%f", name);
            let b = crate::text::replace_str(a.as_str(), "%d", dir);
            let c = crate::text::replace_str(b.as_str(), "%n", stem.as_str());
            return Some(c);
        }
        i += 1;
    }
    None
}

/// The description a line of `DESCRIPT.ION` gives: the text before the
/// first space (without surrounding double quotes) names the file, the
/// trimmed rest describes it; a line without a space gives none.
pub open spec fn desc_of_line(l: Seq<char>) -> Option<(Seq<char>, Seq<char>)> {
    let k = index_of_or_len(l, ' ');
    if k >= l.len() {
        None
    } else {
        Some((trim_char(l.take(k), '"'), trim(l.skip(k + 1))))
    }
}

/// The description of one line as a sequence of none or one pair.
pub open spec fn desc_piece(l: Seq<char>) -> Seq<(Seq<char>, Seq<char>)> {
    match desc_of_line(l) {
        Some(p) => seq![p],
        None => Seq::empty(),
    }
}

/// The descriptions of some lines, in order.
pub open spec fn descs_from(ls: Seq<Seq<char>>) -> Seq<(Seq<char>, Seq<char>)>
    decreases ls.len(),
{
    if ls.len() == 0 {
        Seq::empty()
    } else {
        desc_piece(ls[0]) + descs_from(ls.drop_first())
    }
}

proof fn lemma_descs_push(ls: Seq<Seq<char>>, l: Seq<char>)
    ensures
        descs_from(ls.push(l)) == descs_from(ls) + desc_piece(l),
    decreases ls.len(),
{
    let lp = ls.push(l);
    if ls.len() == 0 {
        assert(lp[0] == l);
        assert(lp.drop_first() =~= Seq::<Seq<char>>::empty());
        assert(descs_from(lp.drop_first()) == Seq::<(Seq<char>, Seq<char>)>::empty());
        assert(descs_from(lp) == desc_piece(l) + Seq::<(Seq<char>, Seq<char>)>::empty());
        assert(desc_piece(l) + Seq::<(Seq<char>, Seq<char>)>::empty() =~= Seq::<(Seq<char>, Seq<char>)>::empty() + desc_piece(l));
    } else {
        assert(lp[0] == ls[0]);
        assert(lp.drop_first() =~= ls.drop_first().push(l));
        lemma_descs_push(ls.drop_first(), l);
        assert(descs_from(lp) == desc_piece(ls[0]) + descs_from(lp.drop_first()));
        assert(desc_piece(ls[0]) + (descs_from(ls.drop_first()) + desc_piece(l)) =~= (desc_piece(ls[0]) + descs_from(ls.drop_first())) + desc_piece(l));
    }
}

/// The descriptions in the text of a `DESCRIPT.ION` file, in order; for a
/// name given twice the later line counts (see `description_of`).
pub fn load_descriptions(content: &str) -> (r: Vec<(String, String)>)
    ensures
        pairs_view(r@) == descs_from(split_lines(content@)),
{
    let chars = chars_of(content);
    let lines = crate::text::lines_of(chars.as_slice());
    let ghost ls = lines.deep_view();
    let mut out: Vec<(String, String)> = Vec::new();
    let mut i: usize = 0;
    assert(ls.take(0) =~= Seq::<Seq<char>>::empty());
    while i < lines.len()
        invariant
            i <= lines@.len(),
            ls == lines.deep_view(),
            pairs_view(out@) == descs_from(ls.take(i as int)),
        decreases lines@.len() - i,
    {
        assert(ls[i as int] == lines@[i as int]@);
        let v = chars_of(lines[i].as_str());
        let k = index_of_exec(&v, ' ');
        proof {
            assert(ls.take(i + 1) =~= ls.take(i as int).push(ls[i as int]));
            lemma_descs_push(ls.take(i as int), ls[i as int]);
        }
        if k < v.len() {
            let name = string_of(v.as_slice(), 0, k);
            let rest = string_of(v.as_slice(), k + 1, v.len());
            assert(name@ =~= v@.take(k as int));
            assert(rest@ =~= v@.skip(k + 1));
            let n = crate::text::trim_char_str(name.as_str(), '"');
            let d = crate::text::trim_str(rest.as_str());
            let ghost before = out@;
            out.push((n, d));
            assert(pairs_view(out@) =~= pairs_view(before) + seq![(out@.last().0@, out@.last().1@)]);
        } else {
            assert(pairs_view(out@) =~= pairs_view(out@) + Seq::<(Seq<char>, Seq<char>)>::empty());
        }
        i += 1;
    }
    assert(ls.take(lines@.len() as int) =~= ls);
    out
}

/// The description of `name`: that of its last line.
pub open spec fn description_of(ds: Seq<(Seq<char>, Seq<char>)>, name: Seq<char>) -> Option<Seq<char>>
    decreases ds.len(),
{
    if ds.len() == 0 {
        None
    } else if ds.last().0 == name {
        Some(ds.last().1)
    } else {
        description_of(ds.drop_last(), name)
    }
}

/// The description of the file `name`, if there is one.
pub fn find_description(ds: &Vec<(String, String)>, name: &str) -> (r: Option<String>)
    ensures
        match r {
            Some(d) => description_of(pairs_view(ds@), name@) == Some(d@),
            None => description_of(pairs_view(ds@), name@) is None,
        },
{
    let ghost dv = pairs_view(ds@);
    let mut i: usize = ds.len();
    assert(dv.take(i as int) =~= dv);
    while i > 0
        invariant
            i <= ds@.len(),
            dv == pairs_view(ds@),
            description_of(dv, name@) == description_of(dv.take(i as int), name@),
        decreases i,
    {
        assert(dv.take(i as int).drop_last() =~= dv.take(i - 1));
        if crate::text::str_equal(ds[i - 1].0.as_str(), name) {
            return Some(owned(ds[i - 1].1.as_str()));
        }
        i -= 1;
    }
    None
}

} // verus!
