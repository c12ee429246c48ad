//! The extraction plan: where each archive entry lands under the
//! destination, with path sanitization, per-session root renaming, and
//! cooperative cancellation.

use vstd::prelude::*;
use vstd::string::StringExecFns;
use crate::paths::{
    sanitize_rel_path, get_unique_path, contains_view, split_components,
    is_normal_component, str_views, picks_unique, lemma_picks_unique_normal,
};
use crate::tarfmt::{FLAG_FILE, FLAG_DIR};

verus! {

/// What the driver must do for one entry.
pub enum EntryAction {
    /// The cancel flag was set: stop reading.
    Stopped,
    /// The entry's path had no safe component: create nothing.
    Skipped,
    /// Create this directory and its parents.
    MakeDir(String),
    /// Unpack the entry's bytes to this path, creating parents.
    WriteFile(String),
    /// An entry type the extraction does not materialize; the target is
    /// still recorded.
    Ignored(String),
}

/// Join components with a single separator.
pub open spec fn join_comps(comps: Seq<Seq<char>>) -> Seq<char>
    decreases comps.len(),
{
    if comps.len() == 0 {
        Seq::empty()
    } else if comps.len() == 1 {
        comps[0]
    } else {
        join_comps(comps.drop_last()) + seq!['/'] + comps.last()
    }
}

pub open spec fn is_file_flag(f: u8) -> bool {
    f == FLAG_FILE || f == 0
}

/// The safe components of an entry's declared path.
pub open spec fn cleaned_of(name: Seq<char>) -> Seq<Seq<char>> {
    split_components(name).filter(|c: Seq<char>| is_normal_component(c))
}

pub open spec fn map_views(m: Seq<(String, String)>) -> Seq<(Seq<char>, Seq<char>)> {
    m.map_values(|p: (String, String)| (p.0@, p.1@))
}

/// Lookup in the session's root map: the first binding for `key`.
pub open spec fn map_lookup(m: Seq<(String, String)>, key: Seq<char>) -> Option<Seq<char>>
    decreases m.len(),
{
    if m.len() == 0 {
        None
    } else if m[0].0@ == key {
        Some(m[0].1@)
    } else {
        map_lookup(m.drop_first(), key)
    }
}

pub open spec fn map_values_normal(m: Seq<(String, String)>) -> bool {
    forall|i: int| 0 <= i < m.len() ==> is_normal_component(#[trigger] m[i].1@)
}

pub proof fn lemma_lookup_normal(m: Seq<(String, String)>, key: Seq<char>)
    requires
        map_values_normal(m),
    ensures
        map_lookup(m, key) matches Some(v) ==> is_normal_component(v),
    decreases m.len(),
{
    if m.len() > 0 && m[0].0@ != key {
        assert(forall|i: int|
            0 <= i < m.drop_first().len() ==> m.drop_first()[i] == m[i + 1]);
        lemma_lookup_normal(m.drop_first(), key);
    }
}

/// One extraction run: the destination, the top-level names already
/// taken there, the per-session renaming of archive roots, what has
/// been restored, and the cancel flag.
pub struct ExtractSession {
    pub dest: String,
    pub taken: Vec<String>,
    pub top_map: Vec<(String, String)>,
    pub restored: Vec<String>,
    pub cancelled: bool,
}

impl ExtractSession {
    /// Every root the session has chosen is a safe component.
    pub open spec fn inv(&self) -> bool {
        map_values_normal(self.top_map@)
    }

    /// Start a run into `dest`, whose directory already holds the names
    /// in `existing`.
    pub fn new(dest: String, existing: Vec<String>) -> (r: Self)
        ensures
            r.inv(),
            r.dest == dest,
            r.taken == existing,
            r.top_map@.len() == 0,
            r.restored@.len() == 0,
            !r.cancelled,
    {
        ExtractSession {
            dest,
            taken: existing,
            top_map: Vec::new(),
            restored: Vec::new(),
            cancelled: false,
        }
    }

    /// Request cooperative cancellation; the consumer stops at the next
    /// entry boundary.
    pub fn cancel(&mut self)
        ensures
            final(self).inv() == old(self).inv(),
            final(self).cancelled,
            final(self).dest == old(self).dest,
            final(self).taken == old(self).taken,
            final(self).top_map == old(self).top_map,
            final(self).restored == old(self).restored,
    {
        self.cancelled = true;
    }

    fn lookup_root(&self, key: &String) -> (r: Option<String>)
        ensures
            match r {
                Some(v) => map_lookup(self.top_map@, key@) == Some(v@),
                None => map_lookup(self.top_map@, key@) is None,
            },
    {
        let mut i: usize = 0;
        proof {
            assert(self.top_map@.skip(0) =~= self.top_map@);
        }
        while i < self.top_map.len()
            invariant
                i <= self.top_map@.len(),
                map_lookup(self.top_map@, key@) == map_lookup(
                    self.top_map@.skip(i as int),
                    key@,
                ),
            decreases self.top_map@.len() - i,
        {
            proof {
                assert(self.top_map@.skip(i as int)[0] == self.top_map@[i as int]);
                assert(self.top_map@.skip(i as int).drop_first() =~= self.top_map@.skip(
                    i as int + 1,
                ));
            }
            if self.top_map[i].0 == *key {
                return Some(self.top_map[i].1.clone());
            }
            i = i + 1;
        }
        None
    }

    fn join_under(&self, root: &String, sub: &Vec<String>, from: usize) -> (r: String)
        requires
            from <= sub@.len(),
        ensures
            r@ == join_comps(seq![self.dest@, root@] + str_views(sub@).skip(from as int)),
    {
        let mut acc = self.dest.clone();
        acc.append("/");
        acc.append(root.as_str());
        proof {
            reveal_strlit("/");
            reveal_with_fuel(join_comps, 3);
            assert(seq![self.dest@, root@].drop_last() =~= seq![self.dest@]);
            assert(join_comps(seq![self.dest@, root@]) =~= self.dest@ + seq!['/'] + root@);
            assert(acc@ =~= join_comps(seq![self.dest@, root@]));
            assert(seq![self.dest@, root@] + str_views(sub@).subrange(from as int, from as int)
                =~= seq![self.dest@, root@]);
        }
        let mut i: usize = from;
        while i < sub.len()
            invariant
                from <= i <= sub@.len(),
                acc@ == join_comps(
                    seq![self.dest@, root@] + str_views(sub@).subrange(from as int, i as int),
                ),
            decreases sub@.len() - i,
        {
            acc.append("/");
            acc.append(sub[i].as_str());
            proof {
                reveal_strlit("/");
                let base = seq![self.dest@, root@];
                let prev = base + str_views(sub@).subrange(from as int, i as int);
                let next = base + str_views(sub@).subrange(from as int, i as int + 1);
                assert(next.drop_last() =~= prev);
                assert(next.last() == str_views(sub@)[i as int]);
                assert(next.len() >= 2);
                assert(acc@ =~= join_comps(next));
            }
            i = i + 1;
        }
        proof {
            assert(str_views(sub@).subrange(from as int, sub@.len() as int) =~= str_views(
                sub@,
            ).skip(from as int));
        }
        acc
    }

    /// Decide where one entry goes.  A cancelled session stops without
    /// touching anything; an entry with no safe component is skipped.
    /// Everything else lands strictly under the destination — the
    /// target is the destination joined with safe components only.
    /// The top-level name is the entry's own root when that is free;
    /// a taken root is renamed by the collision policy, bound in the
    /// session map on first use and reused for every later entry under
    /// the same root, so nothing already present is ever overwritten.
    pub fn process_entry(&mut self, name: &String, typeflag: u8) -> (a: EntryAction)
        requires
            old(self).inv(),
            old(self).taken@.len() < usize::MAX,
            old(self).restored@.len() < usize::MAX,
        ensures
            final(self).inv(),
            final(self).dest == old(self).dest,
            final(self).cancelled == old(self).cancelled,
            final(self).restored@.len() <= old(self).restored@.len() + 1,
            old(self).cancelled ==> {
                &&& a is Stopped
                &&& final(self).restored == old(self).restored
                &&& final(self).taken == old(self).taken
                &&& final(self).top_map == old(self).top_map
            },
            !old(self).cancelled && cleaned_of(name@).len() == 0 ==> {
                &&& a is Skipped
                &&& final(self).restored == old(self).restored
                &&& final(self).taken == old(self).taken
                &&& final(self).top_map == old(self).top_map
            },
            !old(self).cancelled && cleaned_of(name@).len() > 0 ==> {
                let cleaned = cleaned_of(name@);
                let t = final(self).restored@.last()@;
                exists|chosen: Seq<char>|
                    {
                        &&& ((a matches EntryAction::MakeDir(p) && p@ == t) || (
                        a matches EntryAction::WriteFile(p) && p@ == t) || (
                        a matches EntryAction::Ignored(p) && p@ == t))
                        &&& ((typeflag == FLAG_DIR) <==> (a is MakeDir))
                        &&& final(self).restored@.len() == old(self).restored@.len() + 1
                        &&& final(self).restored@.drop_last() == old(self).restored@
                        &&& final(self).restored@.last()@ == t
                        &&& #[trigger] is_normal_component(chosen)
                        &&& if cleaned.len() == 1 && is_file_flag(typeflag) {
                            // a single-file entry: the collision policy
                            // names it directly under the destination,
                            // and the name is recorded as taken
                            &&& t == join_comps(seq![old(self).dest@, chosen])
                            &&& picks_unique(old(self).taken@, cleaned[0], chosen)
                            &&& !contains_view(old(self).taken@, chosen)
                            &&& str_views(final(self).taken@) == str_views(
                                old(self).taken@,
                            ).push(chosen)
                            &&& final(self).top_map == old(self).top_map
                        } else {
                            // a rooted entry: the session's binding for
                            // this root, minted by the collision policy
                            // on first use and reused afterwards
                            &&& t == join_comps(
                                seq![old(self).dest@, chosen] + cleaned.drop_first(),
                            )
                            &&& match map_lookup(old(self).top_map@, cleaned[0]) {
                                Some(bound) => {
                                    &&& chosen == bound
                                    &&& final(self).taken == old(self).taken
                                    &&& final(self).top_map == old(self).top_map
                                },
                                None => {
                                    &&& picks_unique(old(self).taken@, cleaned[0], chosen)
                                    &&& !contains_view(old(self).taken@, chosen)
                                    &&& str_views(final(self).taken@) == str_views(
                                        old(self).taken@,
                                    ).push(chosen)
                                    &&& map_views(final(self).top_map@) == map_views(
                                        old(self).top_map@,
                                    ).push((cleaned[0], chosen))
                                },
                            }
                        }
                    }
            },
    {
        if self.cancelled {
            return EntryAction::Stopped;
        }
        let cleaned = sanitize_rel_path(name);
        if cleaned.len() == 0 {
            return EntryAction::Skipped;
        }
        let ghost cleanedv = cleaned_of(name@);
        proof {
            assert(str_views(cleaned@) == cleanedv);
            assert(str_views(cleaned@)[0] == cleaned@[0]@);
        }
        let root = cleaned[0].clone();
        let is_file = typeflag == FLAG_FILE || typeflag == 0;
        let target: String;
        let ghost mut chosen_g: Seq<char> = Seq::empty();
        let ghost mut from_map: bool = false;
        if cleaned.len() == 1 && is_file {
            // a single-file entry: pick a fresh name directly under dest
            let chosen = get_unique_path(&root, &self.taken);
            proof {
                chosen_g = chosen@;
                from_map = false;
                assert(is_normal_component(root@));
                lemma_picks_unique_normal(self.taken@, root@, chosen@);
                assert(picks_unique(old(self).taken@, cleanedv[0], chosen_g));
                assert(!contains_view(old(self).taken@, chosen_g));
            }
            self.taken.push(chosen.clone());
            proof {
                assert(str_views(self.taken@) =~= str_views(old(self).taken@).push(chosen_g));
            }
            let empty_sub: Vec<String> = Vec::new();
            target = self.join_under(&chosen, &empty_sub, 0);
            proof {
                assert(str_views(empty_sub@).skip(0) =~= Seq::<Seq<char>>::empty());
                assert(seq![self.dest@, chosen@] + Seq::<Seq<char>>::empty() =~= seq![
                    self.dest@, chosen@,
                ]);
            }
        } else {
            // a rooted entry: rename the root once per session
            let looked = self.lookup_root(&root);
            let chosen_root: String;
            match looked {
                Some(existing_root) => {
                    proof {
                        chosen_g = existing_root@;
                        from_map = true;
                        lemma_lookup_normal(self.top_map@, root@);
                    }
                    chosen_root = existing_root;
                },
                None => {
                    let fresh = get_unique_path(&root, &self.taken);
                    proof {
                        chosen_g = fresh@;
                        from_map = false;
                        assert(is_normal_component(root@));
                        lemma_picks_unique_normal(self.taken@, root@, fresh@);
                        assert(picks_unique(old(self).taken@, cleanedv[0], chosen_g));
                        assert(!contains_view(old(self).taken@, chosen_g));
                    }
                    self.taken.push(fresh.clone());
                    self.top_map.push((root.clone(), fresh.clone()));
                    proof {
                        assert(str_views(self.taken@) =~= str_views(old(self).taken@).push(
                            chosen_g,
                        ));
                        assert(map_views(self.top_map@) =~= map_views(old(self).top_map@).push(
                            (cleanedv[0], chosen_g),
                        ));
                    }
                    chosen_root = fresh;
                },
            }
            target = self.join_under(&chosen_root, &cleaned, 1);
            proof {
                assert(str_views(cleaned@).skip(1) =~= cleanedv.drop_first());
            }
        }
        let ghost tv = target@;
        self.restored.push(target.clone());
        proof {
            assert(self.restored@.drop_last() =~= old(self).restored@);
        }
        let a = if typeflag == FLAG_DIR {
            EntryAction::MakeDir(target)
        } else if is_file {
            EntryAction::WriteFile(target)
        } else {
            EntryAction::Ignored(target)
        };
        proof {
            assert(is_normal_component(chosen_g));
            if cleanedv.len() == 1 && is_file_flag(typeflag) {
                assert(tv == join_comps(seq![old(self).dest@, chosen_g]));
                assert(self.top_map == old(self).top_map);
            } else {
                assert(tv == join_comps(seq![old(self).dest@, chosen_g] + cleanedv.drop_first()));
                if from_map {
                    assert(map_lookup(old(self).top_map@, cleanedv[0]) == Some(chosen_g));
                    assert(self.taken == old(self).taken);
                    assert(self.top_map == old(self).top_map);
                } else {
                    assert(map_lookup(old(self).top_map@, cleanedv[0]) is None);
                }
            }
        }
        a
    }
}

} // verus!
