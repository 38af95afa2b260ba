//! The claim loop behind a match notification: each of up to three matched
//! (series, item) pairs gets a numbered marker, and a candidate who reacts
//! with a pair's marker has that item taken off their wishlist, once.
//! Waiting for reactions is the caller's part; the decisions are here.

use vstd::prelude::*;
use crate::registry::{lemma_single_removal, names_view, remove_spec, strings_view, WishlistDB};

verus! {

/// How many pairs of one notification get a marker.
pub const MAX_MARKERS: usize = 3;

/// The reactions that stand for the first, second and third pair.
pub const MARKER_ONE: &'static str = "1\u{FE0F}\u{20E3}";
pub const MARKER_TWO: &'static str = "2\u{FE0F}\u{20E3}";
pub const MARKER_THREE: &'static str = "3\u{FE0F}\u{20E3}";

/// One matched pair of a notification, with the users who may still claim
/// it and how many items claims have removed so far.
pub struct ClaimTarget {
    pub series: String,
    pub item: String,
    pub candidates: Vec<String>,
    pub removed: usize,
}

pub struct TargetView {
    pub series: Seq<char>,
    pub item: Seq<char>,
    pub candidates: Seq<Seq<char>>,
    pub removed: nat,
}

pub open spec fn target_view(t: ClaimTarget) -> TargetView {
    TargetView {
        series: t.series@,
        item: t.item@,
        candidates: strings_view(t.candidates@),
        removed: t.removed as nat,
    }
}

/// What the caller does after a reaction.
pub enum ClaimAction {
    /// Nothing: not a marker in use, or not a candidate of that pair.
    Ignore,
    /// Remove `item` of `series` from `user`'s wishlist, and report the
    /// number removed for pair `target`.
    Remove { target: usize, user: String, series: String, item: String },
}

/// The state of one notification's claim loop.
pub struct ClaimSession {
    targets: Vec<ClaimTarget>,
}

pub open spec fn min_markers(n: nat) -> nat {
    if n < MAX_MARKERS {
        n
    } else {
        MAX_MARKERS as nat
    }
}

/// Keeps the users other than `user`.
pub open spec fn other_than(user: Seq<char>) -> spec_fn(Seq<char>) -> bool {
    |u: Seq<char>| u != user
}

/// The index that a reaction stands for, if it is one of the markers.
pub open spec fn marker_index(emoji: Seq<char>) -> Option<nat> {
    if emoji == MARKER_ONE@ {
        Some(0)
    } else if emoji == MARKER_TWO@ {
        Some(1)
    } else if emoji == MARKER_THREE@ {
        Some(2)
    } else {
        None
    }
}

/// The marker for pair `i`.
pub fn marker(i: usize) -> (r: &'static str)
    requires
        i < MAX_MARKERS,
    ensures
        marker_index(r@) == Some(i as nat),
{
    proof {
        reveal_strlit("1\u{FE0F}\u{20E3}");
        reveal_strlit("2\u{FE0F}\u{20E3}");
        reveal_strlit("3\u{FE0F}\u{20E3}");
        assert(MARKER_ONE@[0] == '1');
        assert(MARKER_TWO@[0] == '2');
        assert(MARKER_THREE@[0] == '3');
    }
    if i == 0 {
        MARKER_ONE
    } else if i == 1 {
        MARKER_TWO
    } else {
        MARKER_THREE
    }
}

/// The pair index that reaction `emoji` stands for, if any.
pub fn reaction_index(emoji: &str) -> (r: Option<usize>)
    ensures
        match r {
            Some(i) => marker_index(emoji@) == Some(i as nat),
            None => marker_index(emoji@) is None,
        },
{
    let e = String::from_str(emoji);
    if e == String::from_str(MARKER_ONE) {
        Some(0)
    } else if e == String::from_str(MARKER_TWO) {
        Some(1)
    } else if e == String::from_str(MARKER_THREE) {
        Some(2)
    } else {
        None
    }
}

impl View for ClaimSession {
    type V = Seq<TargetView>;

    closed spec fn view(&self) -> Seq<TargetView> {
        self.targets@.map_values(|t: ClaimTarget| target_view(t))
    }
}

impl ClaimSession {
    /// A session over the matched (series, item, users) triples of one
    /// notification, none claimed yet.
    pub fn new(pings: Vec<(String, String, Vec<String>)>) -> (r: ClaimSession)
        ensures
            r@.len() == pings@.len(),
            forall|i: int|
                0 <= i < pings@.len() ==> (#[trigger] r@[i]) == (TargetView {
                    series: pings@[i].0@,
                    item: pings@[i].1@,
                    candidates: strings_view(pings@[i].2@),
                    removed: 0,
                }),
    {
        let mut targets: Vec<ClaimTarget> = Vec::new();
        let mut rest = pings;
        let ghost all = rest@;
        let mut back: Vec<(String, String, Vec<String>)> = Vec::new();
        while rest.len() > 0
            invariant
                rest@.len() + back@.len() == all.len(),
                forall|i: int| 0 <= i < rest@.len() ==> #[trigger] rest@[i] == all[i],
                forall|i: int| 0 <= i < back@.len() ==> #[trigger] back@[i] == all[all.len() - 1 - i],
            decreases rest@.len(),
        {
            let p = rest.pop().unwrap();
            back.push(p);
        }
        while back.len() > 0
            invariant
                targets@.len() + back@.len() == all.len(),
                forall|i: int| 0 <= i < back@.len() ==> #[trigger] back@[i] == all[all.len() - 1 - i],
                forall|i: int|
                    0 <= i < targets@.len() ==> target_view(#[trigger] targets@[i]) == (TargetView {
                        series: all[i].0@,
                        item: all[i].1@,
                        candidates: strings_view(all[i].2@),
                        removed: 0,
                    }),
            decreases back@.len(),
        {
            let (series, item, candidates) = back.pop().unwrap();
            targets.push(ClaimTarget { series, item, candidates, removed: 0 });
        }
        ClaimSession { targets }
    }

    /// How many markers the notification gets: one per pair, at most three.
    pub fn marker_count(&self) -> (r: usize)
        ensures
            r == min_markers(self@.len()),
    {
        if self.targets.len() < MAX_MARKERS {
            self.targets.len()
        } else {
            MAX_MARKERS
        }
    }

    /// The decision on a reaction with marker `target` by `user`: a user
    /// who is a candidate of a pair that has a marker is taken off that
    /// pair's candidates and gets a removal; anything else is ignored and
    /// changes nothing.
    pub fn on_reaction(&mut self, target: usize, user: &str) -> (r: ClaimAction)
        ensures
            ({
                let claims = target < min_markers(old(self)@.len())
                    && old(self)@[target as int].candidates.contains(user@);
                if claims {
                    &&& r matches ClaimAction::Remove { target: t, user: u, series: s, item: i }
                        && t == target && u@ == user@ && s@ == old(self)@[target as int].series
                        && i@ == old(self)@[target as int].item
                    &&& final(self)@ == old(self)@.update(
                        target as int,
                        TargetView {
                            candidates: old(self)@[target as int].candidates.filter(
                                other_than(user@),
                            ),
                            ..old(self)@[target as int]
                        },
                    )
                } else {
                    r is Ignore && final(self)@ == old(self)@
                }
            }),
    {
        let n = self.marker_count();
        if target >= n {
            return ClaimAction::Ignore;
        }
        let ghost v = self@;
        let u = String::from_str(user);
        let t = self.targets.remove(target);
        assert(target_view(t) == v[target as int]);
        let ghost cs = strings_view(t.candidates@);
        let mut kept: Vec<String> = Vec::new();
        let mut found = false;
        let mut i: usize = 0;
        proof {
            assert(cs.take(0) =~= Seq::<Seq<char>>::empty());
            assert(strings_view(kept@) =~= Seq::<Seq<char>>::empty());
            assert(Seq::<Seq<char>>::empty().filter(other_than(user@)) =~= Seq::<Seq<char>>::empty()) by {
                reveal(Seq::filter);
            }
        }
        while i < t.candidates.len()
            invariant
                i <= t.candidates@.len(),
                cs == strings_view(t.candidates@),
                u@ == user@,
                strings_view(kept@) == cs.take(i as int).filter(other_than(user@)),
                found == cs.take(i as int).contains(user@),
            decreases t.candidates@.len() - i,
        {
            let ghost prev = kept@;
            proof {
                assert(cs.take(i + 1) =~= cs.take(i as int).push(cs[i as int]));
                cs.take(i as int).lemma_filter_push(cs[i as int], other_than(user@));
                assert(cs[i as int] == t.candidates@[i as int]@);
            }
            if t.candidates[i] == u {
                found = true;
                proof {
                    assert(cs.take(i + 1)[i as int] == user@);
                }
            } else {
                kept.push(t.candidates[i].clone());
                proof {
                    assert(strings_view(kept@) =~= strings_view(prev).push(cs[i as int]));
                }
            }
            proof {
                if cs.take(i as int).contains(user@) {
                    let k = choose|k: int| 0 <= k < cs.take(i as int).len() && #[trigger] cs.take(i as int)[k] == user@;
                    assert(cs.take(i + 1)[k] == user@);
                }
                if cs.take(i + 1).contains(user@) && cs[i as int] != user@ {
                    let k = choose|k: int| 0 <= k < cs.take(i + 1).len() && #[trigger] cs.take(i + 1)[k] == user@;
                    assert(cs.take(i as int)[k] == user@);
                }
            }
            i = i + 1;
        }
        proof {
            assert(cs.take(t.candidates@.len() as int) =~= cs);
        }
        if found {
            let series = t.series.clone();
            let item = t.item.clone();
            let nt = ClaimTarget {
                series: t.series,
                item: t.item,
                candidates: kept,
                removed: t.removed,
            };
            self.targets.insert(target, nt);
            proof {
                assert(self@ =~= v.update(
                    target as int,
                    TargetView { candidates: v[target as int].candidates.filter(other_than(user@)), ..v[target as int] },
                ));
            }
            ClaimAction::Remove { target, user: u, series, item }
        } else {
            self.targets.insert(target, t);
            proof {
                assert(self@ =~= v);
            }
            ClaimAction::Ignore
        }
    }

    /// Adds `removed` to the running total of pair `target`, and returns the
    /// new total, which the notification shows.
    pub fn record_removal(&mut self, target: usize, removed: usize) -> (r: usize)
        requires
            target < old(self)@.len(),
            old(self)@[target as int].removed + removed <= usize::MAX,
        ensures
            r == old(self)@[target as int].removed + removed,
            final(self)@ == old(self)@.update(
                target as int,
                TargetView { removed: r as nat, ..old(self)@[target as int] },
            ),
    {
        let ghost v = self@;
        let mut t = self.targets.remove(target);
        assert(target_view(t) == v[target as int]);
        t.removed = t.removed + removed;
        let total = t.removed;
        self.targets.insert(target, t);
        proof {
            assert(self@ =~= v.update(target as int, TargetView { removed: total as nat, ..v[target as int] }));
        }
        total
    }

    /// Handles a reaction end to end on `db`: decides as `on_reaction` does
    /// and, on a claim, removes the item from the user's wishlist and adds
    /// what was removed to the pair's total. Returns the pair and its new
    /// total on a claim.
    pub fn claim(&mut self, db: &mut WishlistDB, target: usize, user: &str) -> (r: Option<(usize, usize)>)
        requires
            forall|i: int| 0 <= i < old(self)@.len() ==> (#[trigger] old(self)@[i]).removed <= usize::MAX - 1,
        ensures
            ({
                let claims = target < min_markers(old(self)@.len())
                    && old(self)@[target as int].candidates.contains(user@);
                if claims {
                    let t = old(self)@[target as int];
                    let removed = old(db).count(user@, t.series) - final(db).count(user@, t.series);
                    &&& final(db)@ == remove_spec(old(db)@, user@, t.series, seq![t.item])
                    &&& r == Some((target, (t.removed + removed) as usize))
                    &&& final(self)@ == old(self)@.update(
                        target as int,
                        TargetView {
                            candidates: t.candidates.filter(other_than(user@)),
                            removed: (t.removed + removed) as nat,
                            ..t
                        },
                    )
                } else {
                    r is None && final(self)@ == old(self)@ && final(db)@ == old(db)@
                }
            }),
            forall|i: int| 0 <= i < final(self)@.len() ==> (#[trigger] final(self)@[i]).removed <= old(self)@[i].removed + 1,
    {
        match self.on_reaction(target, user) {
            ClaimAction::Ignore => None,
            ClaimAction::Remove { target: t, user: u, series, item } => {
                let names: Vec<&str> = vec![item.as_str()];
                proof {
                    assert(names_view(names@) =~= seq![item@]);
                }
                let ghost before = db@;
                proof {
                    use_type_invariant(&*db);
                    lemma_single_removal(before, u@, series@, item@);
                }
                let (removed, _left) = db.remove_all_from_wishlist(u.as_str(), series.as_str(), names);
                let total = self.record_removal(t, removed);
                Some((t, total))
            },
        }
    }
}


/// A claim takes the user off the pair's candidates, so the same user's
/// next reaction on that marker is ignored and removes nothing more.
pub proof fn lemma_claim_at_most_once(v: Seq<TargetView>, target: int, user: Seq<char>)
    requires
        0 <= target < v.len(),
    ensures
        ({
            let w = v.update(
                target,
                TargetView { candidates: v[target].candidates.filter(other_than(user)), ..v[target] },
            );
            !w[target].candidates.contains(user)
        }),
{
    let f = v[target].candidates.filter(other_than(user));
    broadcast use vstd::seq_lib::group_filter_ensures;

    if f.contains(user) {
        let k = choose|k: int| 0 <= k < f.len() && #[trigger] f[k] == user;
        assert(other_than(user)(f[k]));
    }
}

} // verus!
