//! Relative paths as component lists: splitting, sanitization, the
//! top-level name of a path, and the unique-name policy for collisions.

use vstd::prelude::*;
use vstd::string::{StringExecFns, StrSliceExecFns};
use crate::strnum::{
    dec_digits, append_u64, lemma_dec_digits_injective, lemma_dec_digits_form,
};

verus! {

pub open spec fn is_sep(c: char) -> bool {
    c == '/' || c == '\\'
}

/// A component that is safe to create under a destination: not empty,
/// not a dot or dot-dot, and no drive-letter colon.
pub open spec fn is_normal_component(c: Seq<char>) -> bool {
    &&& c.len() > 0
    &&& c != seq!['.']
    &&& c != seq!['.', '.']
    &&& forall|i: int| 0 <= i < c.len() ==> c[i] != ':'
    &&& forall|i: int| 0 <= i < c.len() ==> !is_sep(c[i])
}

/// Index of the first separator of `s`, or -1.
pub open spec fn first_sep(s: Seq<char>) -> int
    decreases s.len(),
{
    if s.len() == 0 {
        -1
    } else if is_sep(s[0]) {
        0
    } else {
        let r = first_sep(s.drop_first());
        if r < 0 {
            -1
        } else {
            r + 1
        }
    }
}

/// Split on separators; empty components are kept (sanitization drops
/// them later).
pub open spec fn split_components(s: Seq<char>) -> Seq<Seq<char>>
    decreases s.len(),
{
    let i = first_sep(s);
    if i < 0 || i >= s.len() {
        seq![s]
    } else {
        seq![s.take(i)] + split_components(s.skip(i + 1))
    }
}

pub open spec fn sep_free(s: Seq<char>) -> bool {
    forall|i: int| 0 <= i < s.len() ==> !is_sep(s[i])
}

pub proof fn lemma_first_sep_none(s: Seq<char>)
    requires
        sep_free(s),
    ensures
        first_sep(s) == -1,
    decreases s.len(),
{
    if s.len() > 0 {
        assert(forall|i: int|
            0 <= i < s.drop_first().len() ==> s.drop_first()[i] == s[i + 1]);
        lemma_first_sep_none(s.drop_first());
    }
}

pub proof fn lemma_first_sep_at(c: Seq<char>, d: char, rest: Seq<char>)
    requires
        sep_free(c),
        is_sep(d),
    ensures
        first_sep(c + seq![d] + rest) == c.len(),
    decreases c.len(),
{
    let s = c + seq![d] + rest;
    if c.len() == 0 {
        assert(s[0] == d);
    } else {
        assert(!is_sep(s[0]));
        assert(s.drop_first() =~= c.drop_first() + seq![d] + rest);
        assert(forall|i: int|
            0 <= i < c.drop_first().len() ==> c.drop_first()[i] == c[i + 1]);
        lemma_first_sep_at(c.drop_first(), d, rest);
    }
}

/// Splitting a separator-free component off the front.
pub proof fn lemma_split_step(c: Seq<char>, d: char, rest: Seq<char>)
    requires
        sep_free(c),
        is_sep(d),
    ensures
        split_components(c + seq![d] + rest) == seq![c] + split_components(rest),
{
    let s = c + seq![d] + rest;
    lemma_first_sep_at(c, d, rest);
    assert(s.take(c.len() as int) =~= c);
    assert(s.skip(c.len() as int + 1) =~= rest);
}

pub proof fn lemma_split_single(c: Seq<char>)
    requires
        sep_free(c),
    ensures
        split_components(c) == seq![c],
{
    lemma_first_sep_none(c);
}

pub open spec fn str_views(v: Seq<String>) -> Seq<Seq<char>> {
    v.map_values(|s: String| s@)
}

/// Split a path into its raw components.
pub fn split_path(path: &String) -> (r: Vec<String>)
    ensures
        str_views(r@) == split_components(path@),
{
    let sl = path.as_str();
    let n = sl.unicode_len();
    let mut out: Vec<String> = Vec::new();
    let mut start: usize = 0;
    let mut i: usize = 0;
    proof {
        assert(path@.skip(0) =~= path@);
        assert(str_views(out@) =~= Seq::<Seq<char>>::empty());
        assert(split_components(path@) =~= str_views(out@) + split_components(path@.skip(0)));
    }
    while i < n
        invariant
            start <= i <= n == path@.len(),
            sl@ == path@,
            sep_free(path@.subrange(start as int, i as int)),
            split_components(path@) =~= str_views(out@) + split_components(
                path@.skip(start as int),
            ),
        decreases n - i,
    {
        let c = sl.get_char(i);
        if c == '/' || c == '\\' {
            let comp = sl.substring_char(start, i).to_owned();
            let ghost compv = comp@;
            out.push(comp);
            proof {
                assert(path@.skip(start as int) =~= compv + seq![path@[i as int]] + path@.skip(
                    i as int + 1,
                ));
                lemma_split_step(compv, path@[i as int], path@.skip(i as int + 1));
                assert(str_views(out@) =~= str_views(out@.drop_last()) + seq![compv]);
                assert(split_components(path@) =~= str_views(out@) + split_components(
                    path@.skip(i as int + 1),
                ));
            }
            start = i + 1;
        } else {
            proof {
                assert(path@.subrange(start as int, i as int + 1) =~= path@.subrange(
                    start as int,
                    i as int,
                ).push(path@[i as int]));
            }
        }
        i = i + 1;
    }
    let last = sl.substring_char(start, n).to_owned();
    let ghost lastv = last@;
    out.push(last);
    proof {
        assert(path@.skip(start as int) =~= lastv);
        lemma_split_single(lastv);
        assert(str_views(out@) =~= str_views(out@.drop_last()) + seq![lastv]);
        assert(str_views(out@) =~= split_components(path@));
    }
    out
}

/// Check one component for safety.
pub fn component_is_normal(c: &String) -> (r: bool)
    ensures
        r == is_normal_component(c@),
{
    let sl = c.as_str();
    let n = sl.unicode_len();
    if n == 0 {
        return false;
    }
    let mut i: usize = 0;
    let mut all_dots = true;
    while i < n
        invariant
            i <= n == c@.len(),
            sl@ == c@,
            forall|j: int| 0 <= j < i ==> c@[j] != ':' && !is_sep(c@[j]),
            all_dots == (forall|j: int| 0 <= j < i ==> c@[j] == '.'),
        decreases n - i,
    {
        let ch = sl.get_char(i);
        if ch == ':' || ch == '/' || ch == '\\' {
            return false;
        }
        if ch != '.' {
            all_dots = false;
        }
        i = i + 1;
    }
    if all_dots && n <= 2 {
        proof {
            if n == 1 {
                assert(c@ =~= seq!['.']);
            } else {
                assert(c@ =~= seq!['.', '.']);
            }
        }
        return false;
    }
    proof {
        if n == 1 {
            assert(c@ != seq!['.']) by {
                if c@ == seq!['.'] {
                    assert(c@[0] == '.');
                }
            }
        }
        if n == 2 {
            assert(c@ != seq!['.', '.']) by {
                if c@ == seq!['.', '.'] {
                    assert(c@[0] == '.' && c@[1] == '.');
                }
            }
        }
        assert(c@ != seq!['.'] && c@ != seq!['.', '.']) by {
            if c@ == seq!['.'] {
                assert(c@.len() == 1);
            }
            if c@ == seq!['.', '.'] {
                assert(c@.len() == 2);
            }
        }
    }
    true
}

/// Keep only the safe components of a path: no roots, no dot-dots, no
/// drive prefixes survive.
pub fn sanitize_rel_path(path: &String) -> (r: Vec<String>)
    ensures
        str_views(r@) == split_components(path@).filter(|c: Seq<char>| is_normal_component(c)),
        forall|i: int| 0 <= i < r@.len() ==> is_normal_component(#[trigger] r@[i]@),
{
    let comps = split_path(path);
    let mut out: Vec<String> = Vec::new();
    let mut i: usize = 0;
    while i < comps.len()
        invariant
            i <= comps@.len(),
            str_views(comps@) == split_components(path@),
            str_views(out@) == str_views(comps@).take(i as int).filter(
                |c: Seq<char>| is_normal_component(c),
            ),
            forall|j: int| 0 <= j < out@.len() ==> is_normal_component(#[trigger] out@[j]@),
        decreases comps@.len() - i,
    {
        let keep = component_is_normal(&comps[i]);
        let ghost pre = str_views(out@);
        if keep {
            out.push(comps[i].clone());
            proof {
                assert(str_views(out@) =~= pre.push(comps@[i as int]@));
            }
        }
        proof {
            reveal_with_fuel(Seq::<_>::filter, 2);
            let f = |c: Seq<char>| is_normal_component(c);
            let t = str_views(comps@).take(i as int);
            let tp = str_views(comps@).take(i as int + 1);
            assert(tp =~= t.push(comps@[i as int]@));
            assert(tp.drop_last() =~= t);
            assert(tp.last() == comps@[i as int]@);
            assert(tp.filter(f) == if f(comps@[i as int]@) {
                t.filter(f).push(comps@[i as int]@)
            } else {
                t.filter(f)
            });
        }
        i = i + 1;
    }
    proof {
        assert(str_views(comps@).take(comps@.len() as int) =~= str_views(comps@));
    }
    out
}

/// The top-level name of a path: its last safe component, or "." when
/// it has none.
pub open spec fn spec_normalize(s: Seq<char>) -> Seq<char> {
    let kept = split_components(s).filter(|c: Seq<char>| is_normal_component(c));
    if kept.len() == 0 {
        seq!['.']
    } else {
        kept.last()
    }
}

/// The name an archive entry gets for a given input path: the final
/// component when it is safe, else the last safe one, else ".".
pub fn normalize_path(path: &String) -> (r: String)
    ensures
        r@ == spec_normalize(path@),
{
    let kept = sanitize_rel_path(path);
    if kept.len() == 0 {
        let dot = String::from_str(".");
        proof {
            reveal_strlit(".");
            assert(dot@ =~= seq!['.']);
        }
        dot
    } else {
        let r = kept[kept.len() - 1].clone();
        proof {
            assert(str_views(kept@).last() == kept@.last()@);
        }
        r
    }
}

// ---------------------------------------------------------------------
// The unique-name policy.
// ---------------------------------------------------------------------

/// Index of the last dot of a name, or -1.
pub open spec fn last_dot(s: Seq<char>) -> int
    decreases s.len(),
{
    if s.len() == 0 {
        -1
    } else if s.last() == '.' {
        s.len() - 1
    } else {
        last_dot(s.drop_last())
    }
}

pub open spec fn name_stem(s: Seq<char>) -> Seq<char> {
    if last_dot(s) <= 0 {
        s
    } else {
        s.take(last_dot(s))
    }
}

pub open spec fn name_ext(s: Seq<char>) -> Seq<char> {
    if last_dot(s) <= 0 {
        Seq::empty()
    } else {
        s.skip(last_dot(s) + 1)
    }
}

/// The `k`-th renaming candidate: `stem (k)` with the extension kept.
pub open spec fn unique_candidate(stem: Seq<char>, ext: Seq<char>, k: nat) -> Seq<char> {
    stem + seq![' ', '('] + dec_digits(k) + seq![')'] + (if ext.len() == 0 {
        Seq::<char>::empty()
    } else {
        seq!['.'] + ext
    })
}

/// Different counters give different candidate names.
pub proof fn lemma_candidate_injective(stem: Seq<char>, ext: Seq<char>, k1: nat, k2: nat)
    requires
        unique_candidate(stem, ext, k1) == unique_candidate(stem, ext, k2),
    ensures
        k1 == k2,
{
    let c1 = unique_candidate(stem, ext, k1);
    let c2 = unique_candidate(stem, ext, k2);
    let tail = if ext.len() == 0 {
        1int
    } else {
        2 + ext.len() as int
    };
    let a = stem.len() as int + 2;
    assert(c1.len() == a + dec_digits(k1).len() + tail);
    assert(c2.len() == a + dec_digits(k2).len() + tail);
    assert(dec_digits(k1).len() == dec_digits(k2).len());
    assert(dec_digits(k1) =~= c1.subrange(a, a + dec_digits(k1).len()));
    assert(dec_digits(k2) =~= c2.subrange(a, a + dec_digits(k2).len()));
    lemma_dec_digits_injective(k1, k2);
}

/// Renaming keeps a component safe: `stem (k)` with the extension kept
/// adds only spaces, parentheses, digits and a dot.
pub proof fn lemma_last_dot_bound(s: Seq<char>)
    ensures
        last_dot(s) < s.len(),
    decreases s.len(),
{
    if s.len() > 0 && s.last() != '.' {
        lemma_last_dot_bound(s.drop_last());
    }
}

pub proof fn lemma_candidate_normal(root: Seq<char>, k: nat)
    requires
        is_normal_component(root),
    ensures
        is_normal_component(unique_candidate(name_stem(root), name_ext(root), k)),
{
    let stem = name_stem(root);
    let ext = name_ext(root);
    let c = unique_candidate(stem, ext, k);
    lemma_dec_digits_form(k);
    let digits = dec_digits(k);
    assert(c.len() >= stem.len() + 2 + digits.len() + 1);
    assert(c.len() >= 4);
    let d = last_dot(root);
    lemma_last_dot_bound(root);
    assert forall|i: int| 0 <= i < c.len() implies c[i] != ':' && !is_sep(c[i]) by {
        let a = stem.len() as int;
        let b = a + 2 + digits.len() as int;
        if i < a {
            assert(c[i] == stem[i]);
            if d <= 0 {
                assert(stem[i] == root[i]);
            } else {
                assert(stem[i] == root.take(d)[i]);
                assert(root.take(d)[i] == root[i]);
            }
            assert(root[i] != ':' && !is_sep(root[i]));
        } else if i < a + 2 {
            assert(c[i] == ' ' || c[i] == '(');
        } else if i < b {
            assert(c[i] == digits[i - a - 2]);
            assert(crate::strnum::is_digit(digits[i - a - 2]));
        } else if i == b {
            assert(c[i] == ')');
        } else if i == b + 1 {
            assert(ext.len() > 0);
            assert(c[i] == '.');
        } else {
            assert(ext.len() > 0);
            assert(d > 0);
            assert(c[i] == ext[i - b - 2]);
            assert(ext[i - b - 2] == root.skip(d + 1)[i - b - 2]);
            assert(root.skip(d + 1)[i - b - 2] == root[d + 1 + (i - b - 2)]);
            assert(root[d + 1 + (i - b - 2)] != ':' && !is_sep(root[d + 1 + (i - b - 2)]));
        }
    }
    assert(c != seq!['.']) by {
        if c == seq!['.'] {
            assert(c.len() == 1);
        }
    }
    assert(c != seq!['.', '.']) by {
        if c == seq!['.', '.'] {
            assert(c.len() == 2);
        }
    }
}

pub open spec fn contains_view(vs: Seq<String>, s: Seq<char>) -> bool {
    exists|i: int| 0 <= i < vs.len() && vs[i]@ == s
}

/// Does the list hold this name?
pub fn contains_str(existing: &Vec<String>, s: &String) -> (r: bool)
    ensures
        r == contains_view(existing@, s@),
{
    let mut i: usize = 0;
    while i < existing.len()
        invariant
            i <= existing@.len(),
            forall|j: int| 0 <= j < i ==> existing@[j]@ != s@,
        decreases existing@.len() - i,
    {
        if existing[i] == *s {
            return true;
        }
        i = i + 1;
    }
    false
}

/// Index of the last dot of a name, if any.
fn find_last_dot(s: &String) -> (r: Option<usize>)
    ensures
        match r {
            Some(i) => last_dot(s@) == i as int && (i as int) < s@.len(),
            None => last_dot(s@) == -1,
        },
{
    let sl = s.as_str();
    let n = sl.unicode_len();
    let mut i: usize = n;
    proof {
        assert(s@.take(n as int) =~= s@);
    }
    while i > 0
        invariant
            i <= n == s@.len(),
            sl@ == s@,
            last_dot(s@) == last_dot(s@.take(i as int)),
        decreases i,
    {
        let c = sl.get_char(i - 1);
        proof {
            assert(s@.take(i as int).last() == s@[i as int - 1]);
        }
        if c == '.' {
            return Some(i - 1);
        }
        proof {
            assert(s@.take(i as int).drop_last() =~= s@.take(i as int - 1));
        }
        i = i - 1;
    }
    proof {
        assert(s@.take(0) =~= Seq::<char>::empty());
    }
    None
}

/// What the collision policy picks for `root` against the taken names:
/// the root itself when free, else `stem (k)` (extension kept) for the
/// first counter whose candidate is free — every candidate below it is
/// taken.
pub open spec fn picks_unique(taken: Seq<String>, root: Seq<char>, chosen: Seq<char>) -> bool {
    if !contains_view(taken, root) {
        chosen == root
    } else {
        exists|k: nat|
            1 <= k && chosen == #[trigger] unique_candidate(name_stem(root), name_ext(root), k)
                && (forall|j: nat|
                1 <= j < k ==> contains_view(
                    taken,
                    #[trigger] unique_candidate(name_stem(root), name_ext(root), j),
                ))
    }
}

/// A chosen name under the collision policy is itself a safe component
/// whenever the root was one.
pub proof fn lemma_picks_unique_normal(taken: Seq<String>, root: Seq<char>, chosen: Seq<char>)
    requires
        is_normal_component(root),
        picks_unique(taken, root, chosen),
    ensures
        is_normal_component(chosen),
{
    if contains_view(taken, root) {
        let k = choose|k: nat|
            1 <= k && chosen == #[trigger] unique_candidate(name_stem(root), name_ext(root), k)
                && (forall|j: nat|
                1 <= j < k ==> contains_view(
                    taken,
                    #[trigger] unique_candidate(name_stem(root), name_ext(root), j),
                ));
        lemma_candidate_normal(root, k);
    }
}

/// Pick a name that is not taken: the name itself when free, else the
/// first free `stem (k)` (extension kept) counting up from one.
/// Nothing already present is ever returned, so nothing is
/// overwritten.
pub fn get_unique_path(name: &String, existing: &Vec<String>) -> (r: String)
    requires
        existing@.len() < usize::MAX,
    ensures
        !contains_view(existing@, r@),
        picks_unique(existing@, name@, r@),
{
    if !contains_str(existing, name) {
        return name.clone();
    }
    let sl = name.as_str();
    let n = sl.unicode_len();
    let (stem, ext) = match find_last_dot(name) {
        Some(d) if d > 0 => {
            (sl.substring_char(0, d).to_owned(), sl.substring_char(d + 1, n).to_owned())
        },
        _ => (name.clone(), String::new()),
    };
    let ghost stemv = name_stem(name@);
    let ghost extv = name_ext(name@);
    proof {
        assert(stem@ == stemv);
        assert(ext@ == extv);
    }
    let ghost evs = existing@.map_values(|s: String| s@);
    let ghost eset = evs.to_set();
    let mut k: usize = 1;
    let ghost mut tried: Set<Seq<char>> = Set::empty();
    loop
        invariant
            1 <= k,
            existing@.len() < usize::MAX,
            contains_view(existing@, name@),
            stemv == name_stem(name@),
            extv == name_ext(name@),
            stem@ == stemv,
            ext@ == extv,
            evs == existing@.map_values(|s: String| s@),
            eset == evs.to_set(),
            tried =~= Set::new(
                |c: Seq<char>| exists|j: nat| 1 <= j < k && c == unique_candidate(stemv, extv, j),
            ),
            tried.finite(),
            tried.len() == k - 1,
            tried.subset_of(eset),
            k - 1 <= existing@.len(),
        decreases existing@.len() + 1 - k,
    {
        let mut cand = stem.clone();
        cand.append(" (");
        append_u64(&mut cand, k as u64);
        cand.append(")");
        if ext.as_str().unicode_len() > 0 {
            cand.append(".");
            cand.append(ext.as_str());
        }
        proof {
            reveal_strlit(" (");
            reveal_strlit(")");
            reveal_strlit(".");
            assert(cand@ =~= unique_candidate(stemv, extv, k as nat));
        }
        if !contains_str(existing, &cand) {
            proof {
                assert forall|j: nat| 1 <= j < k implies contains_view(
                    existing@,
                    unique_candidate(name_stem(name@), name_ext(name@), j),
                ) by {
                    let c = unique_candidate(stemv, extv, j);
                    assert(tried.contains(c));
                    assert(eset.contains(c));
                    assert(evs.contains(c));
                    let i = choose|i: int| 0 <= i < evs.len() && evs[i] == c;
                    assert(existing@[i]@ == c);
                }
                assert(1 <= (k as nat) && cand@ == unique_candidate(
                    name_stem(name@),
                    name_ext(name@),
                    k as nat,
                ));
                assert(picks_unique(existing@, name@, cand@));
            }
            return cand;
        }
        proof {
            // The fresh candidate was not tried before.
            assert(!tried.contains(cand@)) by {
                if tried.contains(cand@) {
                    let j = choose|j: nat|
                        1 <= j < k && cand@ == unique_candidate(stemv, extv, j);
                    lemma_candidate_injective(stemv, extv, j, k as nat);
                }
            }
            // It is taken, so it joins the tried set, still within eset.
            let i = choose|i: int| 0 <= i < existing@.len() && existing@[i]@ == cand@;
            assert(evs[i] == cand@);
            assert(eset.contains(cand@));
            let grown = tried.insert(cand@);
            assert(grown.len() == k);
            vstd::set_lib::lemma_len_subset(grown, eset);
            evs.lemma_cardinality_of_set();
            assert(k <= existing@.len());
            assert(grown =~= Set::new(
                |c: Seq<char>|
                    exists|j: nat| 1 <= j < k + 1 && c == unique_candidate(stemv, extv, j),
            )) by {
                assert forall|c: Seq<char>| #[trigger] grown.contains(c) implies exists|j: nat|
                    1 <= j < k + 1 && c == unique_candidate(stemv, extv, j) by {
                    if tried.contains(c) {
                        let j = choose|j: nat|
                            1 <= j < k && c == unique_candidate(stemv, extv, j);
                        assert(1 <= j < k + 1 && c == unique_candidate(stemv, extv, j));
                    } else {
                        assert(c == unique_candidate(stemv, extv, k as nat));
                        assert(1 <= (k as nat) && (k as nat) < k + 1);
                    }
                }
                assert forall|c: Seq<char>|
                    (exists|j: nat| 1 <= j < k + 1 && c == unique_candidate(stemv, extv, j))
                        implies #[trigger] grown.contains(c) by {
                    let j = choose|j: nat|
                        1 <= j < k + 1 && c == unique_candidate(stemv, extv, j);
                    if j < k as nat {
                        assert(tried.contains(c));
                    } else {
                        assert(c == cand@);
                    }
                }
            }
            tried = grown;
        }
        k = k + 1;
    }
}

} // verus!
