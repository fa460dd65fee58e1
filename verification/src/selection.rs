//! The selection model: a set of selected field indices plus the anchor
//! from which a shift-range selection is measured. Click semantics come in
//! three kinds, and indices are repaired when the schema loses a field.

use vstd::prelude::*;

verus! {

/// The modifier held during a click.
#[derive(Clone, Copy, Debug, PartialEq, Eq, Structural)]
pub enum ClickKind {
    /// No modifier: select only the clicked field, or toggle off the sole
    /// selected field when it is clicked again.
    Plain,
    /// Ctrl: toggle the clicked field's membership.
    Ctrl,
    /// Shift: extend the selection over the range from the anchor.
    Shift,
}

/// All indices from `lo` through `hi`, inclusive.
pub open spec fn range_set(lo: usize, hi: usize) -> Set<usize> {
    Set::new(|x: usize| lo <= x <= hi)
}

/// The selection transition for one click: the new selected set and the
/// new anchor.
pub open spec fn click_model(
    sel: Set<usize>,
    anchor: Option<usize>,
    idx: usize,
    kind: ClickKind,
) -> (Set<usize>, Option<usize>) {
    match kind {
        ClickKind::Plain => if sel == set![idx] {
            (Set::<usize>::empty(), None::<usize>)
        } else {
            (set![idx], Some(idx))
        },
        ClickKind::Ctrl => (
            if sel.contains(idx) {
                sel.remove(idx)
            } else {
                sel.insert(idx)
            },
            Some(idx),
        ),
        ClickKind::Shift => match anchor {
            Some(a) => {
                let lo = if a <= idx {
                    a
                } else {
                    idx
                };
                let hi = if a <= idx {
                    idx
                } else {
                    a
                };
                (sel.union(range_set(lo, hi)), Some(idx))
            },
            None => (set![idx], Some(idx)),
        },
    }
}

/// Where one selected index lands when the field at index `d` is removed:
/// `d` itself disappears, larger indices shift down by one, smaller ones
/// stay.
pub open spec fn shifted_index(v: usize, d: usize) -> Option<usize> {
    if v == d {
        None
    } else if v > d {
        Some((v - 1) as usize)
    } else {
        Some(v)
    }
}

/// The selected set after the field at index `d` is removed.
pub open spec fn repaired_set(sel: Set<usize>, d: usize) -> Set<usize> {
    Set::new(
        |x: usize|
            if x < d {
                sel.contains(x)
            } else {
                x + 1 <= usize::MAX && sel.contains((x + 1) as usize)
            },
    )
}

/// The anchor after the field at index `d` is removed.
pub open spec fn repaired_anchor(anchor: Option<usize>, d: usize) -> Option<usize> {
    match anchor {
        Some(a) => if a == d {
            None
        } else if a > d {
            Some((a - 1) as usize)
        } else {
            Some(a)
        },
        None => None,
    }
}

/// The set of indices a one-element vector holds is the singleton set.
proof fn lemma_singleton_sel(s: Seq<usize>, idx: usize)
    requires
        s == seq![idx],
    ensures
        Set::new(|x: usize| s.contains(x)) == set![idx],
{
    assert forall|x: usize| s.contains(x) <==> set![idx].contains(x) by {
        if s.contains(x) {
            let j = choose|j: int| 0 <= j < s.len() && s[j] == x;
            assert(x == idx);
        }
        if x == idx {
            assert(s[0] == idx);
            assert(s.contains(idx));
        }
    }
    assert(Set::new(|x: usize| s.contains(x)) =~= set![idx]);
}

/// A set of selected field indices plus the shift-range anchor.
#[derive(Debug)]
pub struct Selection {
    /// The selected indices, each held at most once.
    pub selected: Vec<usize>,
    /// The index the next shift-range selection is measured from.
    pub anchor: Option<usize>,
}

impl Selection {
    /// Each index is held at most once.
    pub open spec fn wf(self) -> bool {
        forall|i: int, j: int|
            0 <= i < j < self.selected@.len() ==> #[trigger] self.selected@[i] != #[trigger] self.selected@[j]
    }

    /// The selected indices as a set.
    pub open spec fn sel(self) -> Set<usize> {
        Set::new(|x: usize| self.selected@.contains(x))
    }

    /// An empty selection.
    pub fn new() -> (r: Self)
        ensures
            r.wf(),
            r.sel() == Set::<usize>::empty(),
            r.anchor is None,
    {
        let r = Selection { selected: Vec::new(), anchor: None };
        proof {
            assert(r.sel() =~= Set::<usize>::empty());
        }
        r
    }

    /// Whether the field at `idx` is selected.
    pub fn is_selected(&self, idx: usize) -> (r: bool)
        ensures
            r == self.sel().contains(idx),
    {
        let mut i: usize = 0;
        while i < self.selected.len()
            invariant
                i <= self.selected@.len(),
                forall|j: int| 0 <= j < i ==> self.selected@[j] != idx,
            decreases self.selected@.len() - i,
        {
            if self.selected[i] == idx {
                proof {
                    assert(self.selected@[i as int] == idx);
                    assert(self.selected@.contains(idx));
                }
                return true;
            }
            i = i + 1;
        }
        proof {
            assert(!self.selected@.contains(idx));
        }
        false
    }

    /// Empties the selection and clears the anchor.
    pub fn clear(&mut self)
        ensures
            final(self).wf(),
            final(self).sel() == Set::<usize>::empty(),
            final(self).anchor is None,
    {
        self.selected.clear();
        self.anchor = None;
        proof {
            assert(self.sel() =~= Set::<usize>::empty());
        }
    }

    /// Adds `idx` to the selected set, leaving the anchor alone.
    fn insert_index(&mut self, idx: usize)
        requires
            old(self).wf(),
        ensures
            final(self).wf(),
            final(self).sel() == old(self).sel().insert(idx),
            final(self).anchor == old(self).anchor,
    {
        if !self.is_selected(idx) {
            let ghost pre = self.selected@;
            self.selected.push(idx);
            proof {
                assert forall|x: usize|
                    self.sel().contains(x) <==> old(self).sel().insert(idx).contains(x) by {
                    if self.selected@.contains(x) {
                        let j = choose|j: int|
                            0 <= j < self.selected@.len() && self.selected@[j] == x;
                        if j < pre.len() {
                            assert(pre[j] == x);
                            assert(pre.contains(x));
                        } else {
                            assert(x == idx);
                        }
                    }
                    if pre.contains(x) {
                        let j = choose|j: int| 0 <= j < pre.len() && pre[j] == x;
                        assert(self.selected@[j] == x);
                        assert(self.selected@.contains(x));
                    }
                    if x == idx {
                        assert(self.selected@[pre.len() as int] == idx);
                        assert(self.selected@.contains(idx));
                    }
                }
                assert(self.sel() =~= old(self).sel().insert(idx));
                assert forall|i: int, j: int|
                    0 <= i < j < self.selected@.len() implies self.selected@[i]
                    != self.selected@[j] by {
                    if j == pre.len() {
                        assert(self.selected@[i] == pre[i]);
                        assert(pre[i] != idx) by {
                            if pre[i] == idx {
                                assert(pre.contains(idx));
                            }
                        }
                    }
                }
            }
        } else {
            proof {
                assert(self.sel() =~= old(self).sel().insert(idx));
            }
        }
    }

    /// Drops `idx` from the selected set, leaving the anchor alone.
    #[verifier::loop_isolation(false)]
    fn remove_index(&mut self, idx: usize)
        requires
            old(self).wf(),
        ensures
            final(self).wf(),
            final(self).sel() == old(self).sel().remove(idx),
            final(self).anchor == old(self).anchor,
    {
        let ghost pre = self.selected@;
        let mut i: usize = 0;
        while i < self.selected.len()
            invariant
                i <= self.selected@.len(),
                self.selected@ == pre,
                self.anchor == old(self).anchor,
                forall|j: int| 0 <= j < i ==> self.selected@[j] != idx,
            decreases self.selected@.len() - i,
        {
            if self.selected[i] == idx {
                self.selected.remove(i);
                proof {
                    assert forall|x: usize|
                        self.sel().contains(x) <==> old(self).sel().remove(idx).contains(x) by {
                        if self.selected@.contains(x) {
                            let j = choose|j: int|
                                0 <= j < self.selected@.len() && self.selected@[j] == x;
                            if j < i {
                                assert(pre[j] == x);
                                assert(pre.contains(x));
                            } else {
                                assert(pre[j + 1] == x);
                                assert(pre.contains(x));
                            }
                            assert(x != idx) by {
                                if x == idx {
                                    if j < i {
                                        assert(pre[j] == idx);
                                    } else {
                                        assert(pre[j + 1] == idx && pre[i as int] == idx);
                                    }
                                }
                            }
                        }
                        if pre.contains(x) && x != idx {
                            let j = choose|j: int| 0 <= j < pre.len() && pre[j] == x;
                            if j < i {
                                assert(self.selected@[j] == x);
                            } else {
                                assert(j != i);
                                assert(self.selected@[j - 1] == x);
                            }
                            assert(self.selected@.contains(x));
                        }
                    }
                    assert(self.sel() =~= old(self).sel().remove(idx));
                }
                return ;
            }
            i = i + 1;
        }
        proof {
            assert(!pre.contains(idx));
            assert(self.sel() =~= old(self).sel().remove(idx));
        }
    }

    /// Applies one click with the given modifier.
    #[verifier::loop_isolation(false)]
    pub fn click(&mut self, idx: usize, kind: ClickKind)
        requires
            old(self).wf(),
        ensures
            final(self).wf(),
            (final(self).sel(), final(self).anchor) == click_model(
                old(self).sel(),
                old(self).anchor,
                idx,
                kind,
            ),
    {
        match kind {
            ClickKind::Plain => {
                self.click_reset(idx);
            },
            ClickKind::Ctrl => {
                if self.is_selected(idx) {
                    self.remove_index(idx);
                } else {
                    self.insert_index(idx);
                }
                self.anchor = Some(idx);
            },
            ClickKind::Shift => {
                match self.anchor {
                    Some(a) => {
                        let lo = if a <= idx {
                            a
                        } else {
                            idx
                        };
                        let hi = if a <= idx {
                            idx
                        } else {
                            a
                        };
                        let ghost sel0 = self.sel();
                        let mut k: usize = lo;
                        proof {
                            assert(self.sel() =~= sel0.union(Set::new(|x: usize| lo <= x < k)));
                        }
                        while k < hi
                            invariant
                                lo <= k <= hi,
                                self.wf(),
                                self.anchor == old(self).anchor,
                                self.sel() == sel0.union(Set::new(|x: usize| lo <= x < k)),
                            decreases hi - k,
                        {
                            self.insert_index(k);
                            proof {
                                assert(self.sel() =~= sel0.union(
                                    Set::new(|x: usize| lo <= x < k + 1),
                                ));
                            }
                            k = k + 1;
                        }
                        self.insert_index(hi);
                        self.anchor = Some(idx);
                        proof {
                            assert(self.sel() =~= sel0.union(range_set(lo, hi)));
                        }
                    },
                    None => {
                        // Without an anchor, a shift-click resets the
                        // selection to the clicked field, as a plain click
                        // on an unselected field does.
                        self.selected.clear();
                        self.selected.push(idx);
                        self.anchor = Some(idx);
                        proof {
                            assert(self.selected@ =~= seq![idx]);
                            lemma_singleton_sel(self.selected@, idx);
                        }
                    },
                }
            },
        }
    }

    /// A plain click: selects only `idx`, or toggles the selection off when
    /// `idx` is already the sole selected field.
    fn click_reset(&mut self, idx: usize)
        requires
            old(self).wf(),
        ensures
            final(self).wf(),
            (final(self).sel(), final(self).anchor) == click_model(
                old(self).sel(),
                old(self).anchor,
                idx,
                ClickKind::Plain,
            ),
    {
        let sole = self.selected.len() == 1 && self.selected[0] == idx;
        proof {
            if sole {
                assert(old(self).sel() =~= set![idx]);
            } else {
                if old(self).sel() == set![idx] {
                    assert(old(self).sel().contains(idx));
                    assert(self.selected@.contains(idx));
                    let j = choose|j: int|
                        0 <= j < self.selected@.len() && self.selected@[j] == idx;
                    assert(self.selected@.len() >= 1);
                    if self.selected@.len() >= 2 {
                        let k = if j == 0 {
                            1int
                        } else {
                            0int
                        };
                        assert(old(self).sel().contains(self.selected@[k]));
                        assert(self.selected@[k] == idx);
                        assert(false);
                    }
                    assert(self.selected@[0] == idx);
                    assert(false);
                }
            }
        }
        if sole {
            self.selected.clear();
            self.anchor = None;
            proof {
                assert(self.sel() =~= Set::<usize>::empty());
            }
        } else {
            self.selected.clear();
            self.selected.push(idx);
            self.anchor = Some(idx);
            proof {
                assert(self.selected@ =~= seq![idx]);
                lemma_singleton_sel(self.selected@, idx);
            }
        }
    }

    /// Repairs the selection after the schema removed the field at index
    /// `d`: `d` leaves the selection, every larger index shifts down by
    /// one, and the anchor follows the same rule.
    #[verifier::loop_isolation(false)]
    pub fn repair_after_remove(&mut self, d: usize)
        requires
            old(self).wf(),
        ensures
            final(self).wf(),
            final(self).sel() == repaired_set(old(self).sel(), d),
            final(self).anchor == repaired_anchor(old(self).anchor, d),
    {
        let ghost pre = self.selected@;
        let mut out: Vec<usize> = Vec::new();
        let mut i: usize = 0;
        while i < self.selected.len()
            invariant
                i <= pre.len(),
                self.selected@ == pre,
                old(self).wf(),
                pre == old(self).selected@,
                forall|j: int|
                    0 <= j < out@.len() ==> exists|l: int|
                        0 <= l < i && shifted_index(pre[l], d) == Some(#[trigger] out@[j]),
                forall|l: int|
                    0 <= l < i ==> match shifted_index(#[trigger] pre[l], d) {
                        Some(y) => out@.contains(y),
                        None => true,
                    },
                forall|p: int, q: int|
                    0 <= p < q < out@.len() ==> #[trigger] out@[p] != #[trigger] out@[q],
            decreases pre.len() - i,
        {
            let v = self.selected[i];
            let ghost out0 = out@;
            if v != d {
                let y: usize = if v > d {
                    v - 1
                } else {
                    v
                };
                proof {
                    assert(shifted_index(pre[i as int], d) == Some(y));
                    if out0.contains(y) {
                        let j = choose|j: int| 0 <= j < out0.len() && out0[j] == y;
                        let l = choose|l: int|
                            0 <= l < i && shifted_index(pre[l], d) == Some(out0[j]);
                        assert(pre[l] == pre[i as int]);
                        assert(false);
                    }
                }
                out.push(y);
                proof {
                    assert forall|j: int| 0 <= j < out@.len() implies exists|l: int|
                        0 <= l < i + 1 && shifted_index(pre[l], d) == Some(
                            #[trigger] out@[j],
                        ) by {
                        if j < out0.len() {
                            assert(out@[j] == out0[j]);
                            let l = choose|l: int|
                                0 <= l < i && shifted_index(pre[l], d) == Some(out0[j]);
                            assert(shifted_index(pre[l], d) == Some(out@[j]));
                        } else {
                            assert(out@[j] == y);
                            assert(shifted_index(pre[i as int], d) == Some(out@[j]));
                        }
                    }
                    assert forall|l: int| 0 <= l < i + 1 implies match shifted_index(
                        #[trigger] pre[l],
                        d,
                    ) {
                        Some(y2) => out@.contains(y2),
                        None => true,
                    } by {
                        match shifted_index(pre[l], d) {
                            Some(y2) => {
                                if l < i {
                                    assert(out0.contains(y2));
                                    let j = choose|j: int| 0 <= j < out0.len() && out0[j] == y2;
                                    assert(out@[j] == y2);
                                    assert(out@.contains(y2));
                                } else {
                                    assert(y2 == y);
                                    assert(out@[out0.len() as int] == y);
                                    assert(out@.contains(y));
                                }
                            },
                            None => {},
                        }
                    }
                }
            }
            i = i + 1;
        }
        self.selected = out;
        self.anchor = match self.anchor {
            Some(a) => if a == d {
                None
            } else if a > d {
                Some(a - 1)
            } else {
                Some(a)
            },
            None => None,
        };
        proof {
            assert forall|x: usize|
                self.sel().contains(x) <==> repaired_set(old(self).sel(), d).contains(x) by {
                if self.selected@.contains(x) {
                    let j = choose|j: int| 0 <= j < self.selected@.len() && self.selected@[j] == x;
                    let l = choose|l: int|
                        0 <= l < pre.len() && shifted_index(pre[l], d) == Some(
                            self.selected@[j],
                        );
                    assert(pre.contains(pre[l]));
                    if pre[l] > d {
                        assert(x == pre[l] - 1);
                        assert(old(self).sel().contains((x + 1) as usize));
                    } else {
                        assert(x == pre[l] && x < d);
                        assert(old(self).sel().contains(x));
                    }
                }
                if repaired_set(old(self).sel(), d).contains(x) {
                    if x < d {
                        assert(old(self).sel().contains(x));
                        let l = choose|l: int| 0 <= l < pre.len() && pre[l] == x;
                        assert(shifted_index(pre[l], d) == Some(x));
                        assert(self.selected@.contains(x));
                    } else {
                        assert(old(self).sel().contains((x + 1) as usize));
                        let l = choose|l: int| 0 <= l < pre.len() && pre[l] == (x + 1) as usize;
                        assert(shifted_index(pre[l], d) == Some(x));
                        assert(self.selected@.contains(x));
                    }
                }
            }
            assert(self.sel() =~= repaired_set(old(self).sel(), d));
        }
    }
}

/// Law: without an anchor, a shift-click lands in the same state as a
/// plain click, whenever the clicked field is not already the sole
/// selected field (in that one case the plain click toggles the selection
/// off, while the anchorless shift-click still resets it).
pub proof fn lemma_shift_without_anchor_is_plain(sel: Set<usize>, idx: usize)
    requires
        sel != set![idx],
    ensures
        click_model(sel, None::<usize>, idx, ClickKind::Shift) == click_model(
            sel,
            None::<usize>,
            idx,
            ClickKind::Plain,
        ),
{
}

/// Law: two ctrl-clicks on the same index restore the selected set
/// exactly, and leave the anchor on that index.
pub proof fn lemma_ctrl_click_twice(sel: Set<usize>, anchor: Option<usize>, idx: usize)
    ensures
        ({
            let (sel1, anchor1) = click_model(sel, anchor, idx, ClickKind::Ctrl);
            let (sel2, anchor2) = click_model(sel1, anchor1, idx, ClickKind::Ctrl);
            sel2 == sel && anchor2 == Some(idx)
        }),
{
    let (sel1, anchor1) = click_model(sel, anchor, idx, ClickKind::Ctrl);
    let (sel2, anchor2) = click_model(sel1, anchor1, idx, ClickKind::Ctrl);
    if sel.contains(idx) {
        assert(!sel1.contains(idx));
        assert(sel2 =~= sel);
    } else {
        assert(sel1.contains(idx));
        assert(sel2 =~= sel);
    }
}

} // verus!
