//! Collision-free destination names.
//!
//! The receiver saves into a directory that may already hold a file of
//! the incoming name.  [`unique_path`] picks `name` when it is free
//! and `stem (k)ext` for the smallest `k >= 1` otherwise, and is
//! proved to never pick a name from the existing listing — which is
//! what keeps two receives of the same file apart and keeps a final
//! destination from being overwritten.

use vstd::prelude::*;

use crate::json::push_lit;
use crate::strings::{chars_of, string_of};
use crate::text::{dec_of, emit_u64, lemma_dec_value_of, lemma_dec_of_digits};

verus! {

// ─── Stem and extension ─────────────────────────────────────────────

/// The last index `>= 1` holding `'.'`, searching down from `i`;
/// `-1` when there is none.  A leading dot (a hidden file) does not
/// split.
pub open spec fn last_dot_from(name: Seq<char>, i: int) -> int
    decreases i,
{
    if i < 1 || i >= name.len() {
        -1
    } else if name[i] == '.' {
        i
    } else {
        last_dot_from(name, i - 1)
    }
}

/// Where `name` splits into stem and extension, or `-1`.
pub open spec fn dot_index(name: Seq<char>) -> int {
    last_dot_from(name, name.len() - 1)
}

pub open spec fn stem_of(name: Seq<char>) -> Seq<char> {
    if dot_index(name) < 0 {
        name
    } else {
        name.take(dot_index(name))
    }
}

/// The extension including its dot, or empty.
pub open spec fn ext_of(name: Seq<char>) -> Seq<char> {
    if dot_index(name) < 0 {
        Seq::empty()
    } else {
        name.skip(dot_index(name))
    }
}

pub proof fn lemma_dot_index_range(name: Seq<char>, i: int)
    ensures
        last_dot_from(name, i) == -1 || (1 <= last_dot_from(name, i) < name.len()),
    decreases i,
{
    if !(i < 1 || i >= name.len()) && name[i] != '.' {
        lemma_dot_index_range(name, i - 1);
    }
}

pub proof fn lemma_split_lens(name: Seq<char>)
    ensures
        stem_of(name).len() + ext_of(name).len() == name.len(),
{
    lemma_dot_index_range(name, name.len() - 1);
}

// ─── Candidate names ────────────────────────────────────────────────

/// The `k`-th candidate destination for `name`: the name itself for
/// `k == 0`, else `stem (k)ext`.
pub open spec fn candidate(name: Seq<char>, k: nat) -> Seq<char> {
    if k == 0 {
        name
    } else {
        stem_of(name) + " ("@ + dec_of(k) + ")"@ + ext_of(name)
    }
}

pub proof fn lemma_candidate_len(name: Seq<char>, k: nat)
    requires
        k >= 1,
    ensures
        candidate(name, k).len() == name.len() + 3 + dec_of(k).len(),
        candidate(name, k).len() > name.len(),
{
    reveal_strlit(" (");
    reveal_strlit(")");
    lemma_split_lens(name);
    lemma_dec_of_digits(k);
}

pub proof fn lemma_candidate_inj(name: Seq<char>, k1: nat, k2: nat)
    requires
        k1 >= 1,
        k2 >= 1,
        k1 != k2,
    ensures
        candidate(name, k1) != candidate(name, k2),
{
    reveal_strlit(" (");
    reveal_strlit(")");
    if candidate(name, k1) == candidate(name, k2) {
        lemma_candidate_len(name, k1);
        lemma_candidate_len(name, k2);
        assert(dec_of(k1).len() == dec_of(k2).len());
        let sl = stem_of(name).len() as int;
        let dl = dec_of(k1).len() as int;
        assert(dec_of(k1) =~= candidate(name, k1).subrange(sl + 2, sl + 2 + dl));
        assert(dec_of(k2) =~= candidate(name, k2).subrange(sl + 2, sl + 2 + dl));
        lemma_dec_value_of(k1);
        lemma_dec_value_of(k2);
    }
}

// ─── The chosen destination ─────────────────────────────────────────

/// The smallest `j >= k` whose candidate is absent from `existing`
/// (searching no further than one past the listing's length).
pub open spec fn first_free(existing: Seq<Seq<char>>, name: Seq<char>, k: nat) -> nat
    decreases existing.len() + 1 - k,
{
    if k > existing.len() {
        k
    } else if !existing.contains(candidate(name, k)) {
        k
    } else {
        first_free(existing, name, (k + 1) as nat)
    }
}

/// The destination chosen for `name` against the names in `existing`.
pub open spec fn unique_spec(existing: Seq<Seq<char>>, name: Seq<char>) -> Seq<char> {
    if !existing.contains(name) {
        name
    } else {
        candidate(name, first_free(existing, name, 1))
    }
}

/// The candidates `0..=m` of one name, as a set.
spec fn cand_set(name: Seq<char>, m: nat) -> Set<Seq<char>> {
    Set::new(|x: Seq<char>| x == name || (exists|j: nat| 1 <= j <= m && x == candidate(name, j)))
}

proof fn lemma_cand_set_card(name: Seq<char>, m: nat)
    ensures
        cand_set(name, m).finite(),
        cand_set(name, m).len() == m + 1,
    decreases m,
{
    broadcast use vstd::set::group_set_axioms;

    if m == 0 {
        assert(cand_set(name, 0) =~= Set::empty().insert(name));
    } else {
        lemma_cand_set_card(name, (m - 1) as nat);
        let prev = cand_set(name, (m - 1) as nat);
        let c = candidate(name, m);
        assert(cand_set(name, m) =~= prev.insert(c));
        assert(!prev.contains(c)) by {
            lemma_candidate_len(name, m);
            assert(c != name);
            assert forall|j: nat| 1 <= j <= m - 1 implies c != candidate(name, j) by {
                lemma_candidate_inj(name, m, j);
            }
        }
    }
}

/// A taken name always leaves some candidate free within the
/// listing's length: were the name and every candidate taken, the
/// listing would hold more distinct values than it has entries.
proof fn lemma_exists_free(existing: Seq<Seq<char>>, name: Seq<char>)
    requires
        existing.contains(name),
    ensures
        exists|j: nat|
            1 <= j <= existing.len() && !existing.contains(#[trigger] candidate(name, j)),
{
    broadcast use vstd::set::group_set_axioms;

    let m = existing.len();
    if forall|j: nat| 1 <= j <= m ==> existing.contains(#[trigger] candidate(name, j)) {
        lemma_cand_set_card(name, m);
        assert(cand_set(name, m).subset_of(existing.to_set()));
        existing.lemma_cardinality_of_set();
        vstd::set_lib::lemma_len_subset(cand_set(name, m), existing.to_set());
        assert(false);
    } else {
        let j0 = choose|j: nat|
            !(1 <= j <= m ==> existing.contains(#[trigger] candidate(name, j)));
        assert(1 <= j0 <= m && !existing.contains(candidate(name, j0)));
    }
}

proof fn lemma_first_free_is_free(existing: Seq<Seq<char>>, name: Seq<char>, k: nat)
    requires
        existing.contains(name),
        1 <= k,
        forall|j: nat| 1 <= j < k ==> existing.contains(#[trigger] candidate(name, j)),
    ensures
        !existing.contains(candidate(name, first_free(existing, name, k))),
        first_free(existing, name, k) >= 1,
    decreases existing.len() + 1 - k,
{
    if k > existing.len() {
        lemma_exists_free(existing, name);
        let j0 = choose|j: nat|
            1 <= j <= existing.len() && !existing.contains(#[trigger] candidate(name, j));
        assert(existing.contains(candidate(name, j0)));
        assert(false);
    } else if !existing.contains(candidate(name, k)) {
    } else {
        lemma_first_free_is_free(existing, name, k + 1);
    }
}

/// What [`unique_path`] picks is never a name that already exists.
pub proof fn lemma_unique_path_fresh(existing: Seq<Seq<char>>, name: Seq<char>)
    ensures
        !existing.contains(unique_spec(existing, name)),
{
    if existing.contains(name) {
        lemma_first_free_is_free(existing, name, 1);
    }
}

/// Two receives of the same name into the same directory pick
/// distinct destinations: the second, seeing the first's file among
/// the existing ones, avoids it.
pub proof fn lemma_concurrent_receives_distinct(existing: Seq<Seq<char>>, name: Seq<char>)
    ensures
        ({
            let first = unique_spec(existing, name);
            let second = unique_spec(existing.push(first), name);
            second != first && !existing.contains(second)
        }),
{
    let first = unique_spec(existing, name);
    let grown = existing.push(first);
    lemma_unique_path_fresh(grown, name);
    let second = unique_spec(grown, name);
    assert(grown.contains(first)) by {
        assert(grown[existing.len() as int] == first);
    }
    assert forall|x: Seq<char>| existing.contains(x) implies grown.contains(x) by {
        let i = choose|i: int| 0 <= i < existing.len() && existing[i] == x;
        assert(grown[i] == x);
    }
}

/// The receiver's path plan: the final destination and the `.part`
/// staging name, both absent from the directory listing and distinct
/// from each other.  Data is written only to the staging name, so on
/// failure deleting it leaves the directory as found, and the final
/// name never exists before the verified rename.
pub fn plan_destination(existing: &Vec<String>, name: &str) -> (r: (String, String))
    ensures
        r.0@ == unique_spec(existing.deep_view(), name@),
        !existing.deep_view().contains(r.0@),
        !existing.deep_view().contains(r.1@),
        r.0@ != r.1@,
{
    let final_name = unique_path(existing, name);
    let mut part = chars_of(name);
    crate::json::push_lit(&mut part, ".part");
    let part_name = string_of(&part);
    let mut grown: Vec<String> = Vec::new();
    let mut i: usize = 0;
    while i < existing.len()
        invariant
            i <= existing@.len(),
            grown.deep_view() =~= existing.deep_view().take(i as int),
        decreases existing@.len() - i,
    {
        let ghost before = grown.deep_view();
        grown.push(clone_string(&existing[i]));
        proof {
            assert(grown.deep_view() =~= before.push(existing.deep_view()[i as int]));
            assert(existing.deep_view().take(i as int + 1) =~= existing.deep_view().take(
                i as int,
            ).push(existing.deep_view()[i as int]));
        }
        i = i + 1;
    }
    proof {
        assert(existing.deep_view().take(existing.deep_view().len() as int)
            =~= existing.deep_view());
    }
    let ghost base = existing.deep_view();
    let ghost withfinal = base.push(final_name@);
    grown.push(clone_string(&final_name));
    proof {
        assert(grown.deep_view() =~= withfinal);
    }
    let temp_name = unique_path(&grown, part_name.as_str());
    proof {
        assert(withfinal[base.len() as int] == final_name@);
        assert(withfinal.contains(final_name@));
        assert(temp_name@ != final_name@);
        assert(!base.contains(temp_name@)) by {
            if base.contains(temp_name@) {
                let j = choose|j: int| 0 <= j < base.len() && base[j] == temp_name@;
                assert(withfinal[j] == temp_name@);
                assert(withfinal.contains(temp_name@));
            }
        }
    }
    (final_name, temp_name)
}

/// A copy of a string.
fn clone_string(s: &String) -> (r: String)
    ensures
        r@ == s@,
{
    string_of(&chars_of(s.as_str()))
}

// ─── Executable side ────────────────────────────────────────────────

/// Splits a name into stem and extension (the extension keeps its
/// dot; a missing or leading-only dot gives an empty extension).
fn split_stem_ext(name: &Vec<char>) -> (r: (Vec<char>, Vec<char>))
    ensures
        r.0@ == stem_of(name@),
        r.1@ == ext_of(name@),
{
    let mut j: usize = name.len();
    while j > 1 && name[j - 1] != '.'
        invariant
            j <= name@.len(),
            j == name@.len() || dot_index(name@) == last_dot_from(name@, j as int - 1),
        decreases j,
    {
        j = j - 1;
    }
    let ghost d = dot_index(name@);
    if j <= 1 {
        proof {
            if name@.len() > 0 {
                assert(last_dot_from(name@, 0) == -1);
                if name@.len() > 1 {
                    assert(d == last_dot_from(name@, j as int - 1));
                }
            }
            assert(d == -1);
        }
        let mut stem: Vec<char> = Vec::new();
        let mut i: usize = 0;
        while i < name.len()
            invariant
                i <= name@.len(),
                stem@ =~= name@.take(i as int),
            decreases name@.len() - i,
        {
            stem.push(name[i]);
            proof {
                assert(name@.take(i as int + 1) =~= name@.take(i as int) + seq![name@[i as int]]);
            }
            i = i + 1;
        }
        proof {
            assert(name@.take(name@.len() as int) =~= name@);
        }
        (stem, Vec::new())
    } else {
        let dot = j - 1;
        proof {
            assert(last_dot_from(name@, dot as int) == dot);
            if (j as int) < name@.len() {
                assert(d == last_dot_from(name@, j as int - 1));
            }
            assert(d == dot);
        }
        let mut stem: Vec<char> = Vec::new();
        let mut i: usize = 0;
        while i < dot
            invariant
                i <= dot < name@.len(),
                stem@ =~= name@.take(i as int).take(i as int),
                stem@ =~= name@.subrange(0, i as int),
            decreases dot - i,
        {
            stem.push(name[i]);
            proof {
                assert(name@.subrange(0, i as int + 1) =~= name@.subrange(0, i as int) + seq![
                    name@[i as int],
                ]);
            }
            i = i + 1;
        }
        let mut ext: Vec<char> = Vec::new();
        let mut t: usize = dot;
        while t < name.len()
            invariant
                dot <= t <= name@.len(),
                ext@ =~= name@.subrange(dot as int, t as int),
            decreases name@.len() - t,
        {
            ext.push(name[t]);
            proof {
                assert(name@.subrange(dot as int, t as int + 1) =~= name@.subrange(
                    dot as int,
                    t as int,
                ) + seq![name@[t as int]]);
            }
            t = t + 1;
        }
        proof {
            assert(stem@ =~= name@.take(dot as int));
            assert(ext@ =~= name@.skip(dot as int));
        }
        (stem, ext)
    }
}

/// Builds `stem (k)ext`.
fn candidate_exec(stem: &Vec<char>, ext: &Vec<char>, name: &Vec<char>, k: u64) -> (r: Vec<char>)
    requires
        k >= 1,
        stem@ == stem_of(name@),
        ext@ == ext_of(name@),
    ensures
        r@ == candidate(name@, k as nat),
{
    let mut out: Vec<char> = Vec::new();
    let mut i: usize = 0;
    while i < stem.len()
        invariant
            i <= stem@.len(),
            out@ =~= stem@.take(i as int),
        decreases stem@.len() - i,
    {
        out.push(stem[i]);
        proof {
            assert(stem@.take(i as int + 1) =~= stem@.take(i as int) + seq![stem@[i as int]]);
        }
        i = i + 1;
    }
    proof {
        assert(stem@.take(stem@.len() as int) =~= stem@);
    }
    push_lit(&mut out, " (");
    emit_u64(&mut out, k);
    push_lit(&mut out, ")");
    let mut t: usize = 0;
    let ghost mid = out@;
    while t < ext.len()
        invariant
            t <= ext@.len(),
            out@ =~= mid + ext@.take(t as int),
        decreases ext@.len() - t,
    {
        out.push(ext[t]);
        proof {
            assert(ext@.take(t as int + 1) =~= ext@.take(t as int) + seq![ext@[t as int]]);
        }
        t = t + 1;
    }
    proof {
        assert(ext@.take(ext@.len() as int) =~= ext@);
        assert(out@ =~= candidate(name@, k as nat));
    }
    out
}

/// Whether `x` appears among the existing names.
fn contains_name(existing: &Vec<String>, x: &Vec<char>) -> (r: bool)
    ensures
        r == existing.deep_view().contains(x@),
{
    let mut i: usize = 0;
    while i < existing.len()
        invariant
            i <= existing@.len(),
            existing.deep_view().len() == existing@.len(),
            forall|j: int| 0 <= j < i ==> existing.deep_view()[j] != x@,
            forall|j: int| 0 <= j < existing@.len() ==> existing.deep_view()[j] == existing@[j]@,
        decreases existing@.len() - i,
    {
        let cur = chars_of(existing[i].as_str());
        if crate::protocol::chars_eq(&cur, x) {
            proof {
                assert(existing.deep_view()[i as int] == x@);
            }
            return true;
        }
        i = i + 1;
    }
    proof {
        if existing.deep_view().contains(x@) {
            let j = choose|j: int|
                0 <= j < existing.deep_view().len() && existing.deep_view()[j] == x@;
        }
    }
    false
}

/// Pick a destination name that doesn't collide with existing files:
/// `name` itself when free, else `stem (k)ext` for the smallest free
/// `k >= 1`.  The result is never one of the existing names.
pub fn unique_path(existing: &Vec<String>, name: &str) -> (r: String)
    ensures
        r@ == unique_spec(existing.deep_view(), name@),
        !existing.deep_view().contains(r@),
{
    let ghost ex = existing.deep_view();
    proof {
        lemma_unique_path_fresh(ex, name@);
    }
    let nm = chars_of(name);
    if !contains_name(existing, &nm) {
        return string_of(&nm);
    }
    let (stem, ext) = split_stem_ext(&nm);
    let limit = existing.len();
    proof {
        assert(ex.len() == existing@.len());
    }
    let mut i: usize = 0;
    while i < limit
        invariant
            i <= limit,
            limit == ex.len(),
            ex == existing.deep_view(),
            nm@ == name@,
            stem@ == stem_of(name@),
            ext@ == ext_of(name@),
            ex.contains(name@),
            first_free(ex, name@, 1) == first_free(ex, name@, i as nat + 1),
            forall|j: nat| 1 <= j <= i ==> ex.contains(#[trigger] candidate(name@, j)),
        decreases limit - i,
    {
        let k: u64 = (i as u64) + 1;
        let cand = candidate_exec(&stem, &ext, &nm, k);
        if !contains_name(existing, &cand) {
            proof {
                assert(first_free(ex, name@, k as nat) == k as nat);
            }
            return string_of(&cand);
        }
        proof {
            assert(first_free(ex, name@, i as nat + 1) == first_free(ex, name@, i as nat + 2));
        }
        i = i + 1;
    }
    proof {
        lemma_exists_free(ex, name@);
        let j0 = choose|j: nat| 1 <= j <= ex.len() && !ex.contains(#[trigger] candidate(name@, j));
        assert(ex.contains(candidate(name@, j0)));
        assert(false);
    }
    string_of(&nm)
}

} // verus!
