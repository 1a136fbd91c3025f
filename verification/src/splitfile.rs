//! Splitting a file into numbered chunks (`name.001`, `name.002`, ...) and
//! finding the chunks again.

use vstd::prelude::*;
use crate::numfmt::{decimal, pad_left, push_padded};
use crate::paths::{extension, file_name, file_stem, join, parent};
use crate::text::{append_str, owned, push_char};

verus! {

/// Default chunk size: 1 MiB.
pub const DEFAULT_CHUNK_SIZE: u64 = 1048576;

/// The name of chunk `n` of a file named `stem`: the stem, a dot and the
/// number in at least three digits.
pub open spec fn chunk_name_of(stem: Seq<char>, n: nat) -> Seq<char> {
    stem + seq!['.'] + pad_left(decimal(n), 3, '0')
}

/// The name of chunk `n` of a file named `stem`.
pub fn chunk_name(stem: &str, n: usize) -> (r: String)
    ensures
        r@ == chunk_name_of(stem@, n as nat),
{
    let mut s = owned(stem);
    push_char(&mut s, '.');
    push_padded(&mut s, n as u64, 10, 3);
    s
}

/// Whether a path is the first chunk of a split file (extension `001`).
pub fn is_first_chunk(path: &str) -> (r: bool)
    ensures
        r == (extension(path@) == Some("001"@)),
{
    proof {
        reveal_strlit("001");
    }
    match crate::paths::extension_of(path) {
        Some(e) => crate::text::str_equal(e.as_str(), "001"),
        None => false,
    }
}

/// Where chunk `n` of the file whose first chunk is `first_chunk` lies:
/// next to the first chunk (or in `.` when it has no parent), named after
/// its stem. `None` when the first chunk has no stem.
pub open spec fn chunk_path_of(first_chunk: Seq<char>, n: nat) -> Option<Seq<char>> {
    match file_stem(first_chunk) {
        Some(stem) => {
            let dir = match parent(first_chunk) {
                Some(p) => p,
                None => "."@,
            };
            Some(join(dir, chunk_name_of(stem, n)))
        },
        None => None,
    }
}

/// Where chunk `n` of a split file lies (see `chunk_path_of`).
pub fn chunk_path(first_chunk: &str, n: usize) -> (r: Option<String>)
    ensures
        match r {
            Some(p) => chunk_path_of(first_chunk@, n as nat) == Some(p@),
            None => chunk_path_of(first_chunk@, n as nat) is None,
        },
{
    match crate::paths::file_stem_of(first_chunk) {
        Some(stem) => {
            let dir = match crate::paths::parent_of(first_chunk) {
                Some(p) => p,
                None => owned("."),
            };
            let name = chunk_name(stem.as_str(), n);
            Some(crate::paths::join_path(dir.as_str(), name.as_str()))
        },
        None => None,
    }
}

/// Whether something exists at a path (`Path::exists`); this depends on
/// the file system.
#[verifier::external_body]
pub(crate) fn path_exists(p: &str) -> bool {
    std::path::Path::new(p).exists()
}

/// The length of the unbroken run of `true` at the start of `present`.
pub open spec fn run_length(present: Seq<bool>) -> nat
    decreases present.len(),
{
    if present.len() == 0 || !present[0] {
        0
    } else {
        1 + run_length(present.drop_first())
    }
}

/// How many answers at the start of `present` are `true`, up to the first
/// `false`.
pub fn present_run(present: &Vec<bool>) -> (n: usize)
    ensures
        n <= present@.len(),
        forall|i: int| 0 <= i < n ==> present@[i],
        n < present@.len() ==> !present@[n as int],
        n == run_length(present@),
{
    let mut n: usize = 0;
    assert(present@.skip(0) =~= present@);
    while n < present.len() && present[n]
        invariant
            n <= present@.len(),
            forall|i: int| 0 <= i < n ==> present@[i],
            run_length(present@) == n + run_length(present@.skip(n as int)),
        decreases present@.len() - n,
    {
        assert(present@.skip(n as int).drop_first() =~= present@.skip(n + 1));
        n += 1;
    }
    n
}

/// `answers` are what the presence test `present` said, in order, of
/// chunks 1, 2, ... of the split file whose first chunk is `first_chunk`.
pub open spec fn answered<F: Fn(&str) -> bool>(present: F, first_chunk: Seq<char>, answers: Seq<bool>) -> bool {
    forall|i: int|
        0 <= i < answers.len() ==> exists|p: &str| #[trigger]
            chunk_path_of(first_chunk, (i + 1) as nat) == Some(p@) && call_ensures(present, (p,), answers[i])
}

/// Asks `present` of chunk 1, 2, ... in turn, up to the first it says is
/// missing, and counts the chunks before it; 0 when the first chunk has
/// no stem.
pub fn chunk_run<F: Fn(&str) -> bool>(first_chunk: &str, present: F) -> (n: usize)
    requires
        forall|p: &str| call_requires(present, (p,)),
    ensures
        file_stem(first_chunk@) is None ==> n == 0,
        file_stem(first_chunk@) is Some ==> exists|answers: Seq<bool>|
            #[trigger] answered(present, first_chunk@, answers) && n == run_length(answers)
                && (answers.len() == n + 1 || n + 2 >= usize::MAX),
{
    let mut answers: Vec<bool> = Vec::new();
    let mut k: usize = 1;
    while k < usize::MAX
        invariant_except_break
            1 <= k <= usize::MAX,
            answers@.len() == k - 1,
            forall|i: int| 0 <= i < answers@.len() ==> answers@[i],
            answered(present, first_chunk@, answers@),
            forall|p: &str| call_requires(present, (p,)),
            file_stem(first_chunk@) is None ==> answers@.len() == 0,
        ensures
            file_stem(first_chunk@) is None ==> answers@.len() == 0,
            answered(present, first_chunk@, answers@),
            forall|i: int| 0 <= i < answers@.len() - 1 ==> answers@[i],
            file_stem(first_chunk@) is Some ==> answers@.len() > 0 && !answers@.last() || answers@.len() + 2
                >= usize::MAX,
        decreases usize::MAX - k,
    {
        match chunk_path(first_chunk, k) {
            Some(p) => {
                let ps: &str = p.as_str();
                let here = present(ps);
                let ghost before = answers@;
                answers.push(here);
                proof {
                    assert forall|i: int| 0 <= i < answers@.len() implies exists|q: &str| #[trigger]
                        chunk_path_of(first_chunk@, (i + 1) as nat) == Some(q@) && call_ensures(present, (q,), answers@[i]) by {
                        if i < before.len() {
                            assert(answers@[i] == before[i]);
                        } else {
                            assert(chunk_path_of(first_chunk@, (i + 1) as nat) == Some(ps@));
                        }
                    }
                }
                if !here {
                    break;
                }
            },
            None => {
                proof {
                    assert(file_stem(first_chunk@) is None);
                }
                break;
            },
        }
        k += 1;
    }
    let n = present_run(&answers);
    proof {
        if answers@.len() > 0 && !answers@.last() {
            assert(n == answers@.len() - 1);
        }
    }
    n
}

/// A law of the count: when the presence test answers the same for the
/// same path (`exists_at` says what it answers), the count is the number
/// of chunks 1, 2, ... present before the first missing one: chunks 1 to
/// `n` are present and chunk `n + 1` is not.
pub proof fn lemma_chunk_run_counts<F: Fn(&str) -> bool>(
    present: F,
    exists_at: spec_fn(Seq<char>) -> bool,
    first_chunk: Seq<char>,
    answers: Seq<bool>,
    n: nat,
)
    requires
        forall|p: &str, b: bool| #[trigger] call_ensures(present, (p,), b) ==> b == exists_at(p@),
        answered(present, first_chunk, answers),
        n == run_length(answers),
        answers.len() == n + 1,
    ensures
        forall|k: nat| 1 <= k <= n ==> #[trigger] chunk_path_of(first_chunk, k) is Some
            && exists_at(chunk_path_of(first_chunk, k)->0),
        chunk_path_of(first_chunk, n + 1) is Some,
        !exists_at(chunk_path_of(first_chunk, n + 1)->0),
{
    lemma_run_length(answers);
    assert forall|k: nat| 1 <= k <= n implies #[trigger] chunk_path_of(first_chunk, k) is Some
        && exists_at(chunk_path_of(first_chunk, k)->0) by {
        let i = k - 1;
        assert(0 <= i < answers.len());
        let p = choose|p: &str| #[trigger] chunk_path_of(first_chunk, (i + 1) as nat) == Some(p@) && call_ensures(present, (p,), answers[i]);
        assert((i + 1) as nat == k);
    }
    let i = n as int;
    let p = choose|p: &str| #[trigger] chunk_path_of(first_chunk, (i + 1) as nat) == Some(p@) && call_ensures(present, (p,), answers[i]);
    assert((i + 1) as nat == n + 1);
}

/// The run of `true` at the start is exactly the answers before the first
/// `false`.
pub proof fn lemma_run_length(present: Seq<bool>)
    ensures
        run_length(present) <= present.len(),
        forall|i: int| 0 <= i < run_length(present) ==> present[i],
        run_length(present) < present.len() ==> !present[run_length(present) as int],
    decreases present.len(),
{
    if present.len() > 0 && present[0] {
        lemma_run_length(present.drop_first());
        assert forall|i: int| 0 <= i < run_length(present) implies present[i] by {
            if i > 0 {
                assert(present[i] == present.drop_first()[i - 1]);
            }
        }
    }
}

/// The number of chunks present beside the first chunk: chunk 1, 2, ...
/// up to the first that is missing; 0 when the first chunk has no stem.
/// Whether a chunk is present is asked of the file system (`Path::exists`)
/// by `chunk_run`, whose contract says which chunks are asked about and
/// how the answers are counted (see `lemma_chunk_run_counts`).
pub fn count_chunks(first_chunk: &str) -> (n: usize)
    ensures
        file_stem(first_chunk@) is None ==> n == 0,
        file_stem(first_chunk@) is Some ==> exists|present: Seq<bool>| n == #[trigger] run_length(present),
{
    chunk_run(first_chunk, |p: &str| path_exists(p))
}

/// The sizes of the chunks a file of `total` bytes is split into: full
/// chunks of `size` bytes, the last one holding what is left.
pub open spec fn chunk_sizes(total: nat, size: nat) -> Seq<nat>
    decreases total,
{
    if total == 0 || size == 0 {
        Seq::empty()
    } else if total <= size {
        seq![total]
    } else {
        seq![size] + chunk_sizes((total - size) as nat, size)
    }
}

/// The sum of some sizes.
pub open spec fn total_of(s: Seq<nat>) -> nat
    decreases s.len(),
{
    if s.len() == 0 {
        0
    } else {
        s[0] + total_of(s.drop_first())
    }
}

/// The chunks of a split add up to the file, and none is empty or larger
/// than the chunk size.
pub proof fn lemma_chunk_sizes(total: nat, size: nat)
    requires
        size > 0,
    ensures
        total_of(chunk_sizes(total, size)) == total,
        forall|i: int| 0 <= i < chunk_sizes(total, size).len() ==> 0 < #[trigger] chunk_sizes(total, size)[i] <= size,
    decreases total,
{
    if total > size {
        lemma_chunk_sizes((total - size) as nat, size);
        let rest = chunk_sizes((total - size) as nat, size);
        assert((seq![size] + rest).drop_first() =~= rest);
        assert(chunk_sizes(total, size) == seq![size] + rest);
        assert forall|i: int| 0 <= i < chunk_sizes(total, size).len() implies 0 < #[trigger] chunk_sizes(total, size)[i] <= size by {
            if i > 0 {
                assert(chunk_sizes(total, size)[i] == rest[i - 1]);
            }
        }
    } else if total > 0 {
        assert(seq![total].drop_first() =~= Seq::<nat>::empty());
        reveal_with_fuel(total_of, 2);
    }
}

/// How a file of `file_size` bytes is split into chunks of `chunk_size`
/// bytes: the size of each chunk in order; an empty file is an error.
pub fn split_sizes(file_size: u64, chunk_size: u64) -> (r: Result<Vec<u64>, String>)
    requires
        chunk_size > 0,
    ensures
        match r {
            Ok(v) => file_size > 0 && v@.map_values(|x: u64| x as nat) == chunk_sizes(file_size as nat, chunk_size as nat),
            Err(e) => file_size == 0 && e@ == "File is empty"@,
        },
{
    if file_size == 0 {
        return Err(owned("File is empty"));
    }
    let mut v: Vec<u64> = Vec::new();
    let mut remaining = file_size;
    assert(v@.map_values(|x: u64| x as nat) + chunk_sizes(remaining as nat, chunk_size as nat)
        =~= chunk_sizes(file_size as nat, chunk_size as nat));
    while remaining > 0
        invariant
            chunk_size > 0,
            v@.map_values(|x: u64| x as nat) + chunk_sizes(remaining as nat, chunk_size as nat)
                == chunk_sizes(file_size as nat, chunk_size as nat),
        decreases remaining,
    {
        let ghost before = v@.map_values(|x: u64| x as nat);
        let to_write = if chunk_size < remaining { chunk_size } else { remaining };
        v.push(to_write);
        assert(v@.map_values(|x: u64| x as nat) =~= before.push(to_write as nat));
        remaining = remaining - to_write;
        assert(v@.map_values(|x: u64| x as nat) + chunk_sizes(remaining as nat, chunk_size as nat)
            =~= before + chunk_sizes((remaining + to_write) as nat, chunk_size as nat));
    }
    assert(chunk_sizes(0, chunk_size as nat) =~= Seq::<nat>::empty());
    assert(v@.map_values(|x: u64| x as nat) =~= v@.map_values(|x: u64| x as nat) + chunk_sizes(remaining as nat, chunk_size as nat));
    Ok(v)
}

} // verus!
