//! Navigation history: a list of visited addresses and a cursor over it.
//!
//! Adding an entry drops everything after the cursor, appends the new
//! address at the end and moves the cursor onto it; going back and forward
//! move the cursor without changing the list.

use vstd::prelude::*;

verus! {

/// One visited address and its position in the history.
#[derive(Debug, PartialEq, Eq)]
pub struct HistoryItem {
    pub position: usize,
    pub url: String,
}

/// Mathematical model of a [`HistoryItem`].
#[verifier::ext_equal]
pub struct HistoryItemModel {
    pub position: int,
    pub url: Seq<char>,
}

impl View for HistoryItem {
    type V = HistoryItemModel;

    open spec fn view(&self) -> HistoryItemModel {
        HistoryItemModel { position: self.position as int, url: self.url@ }
    }
}

impl DeepView for HistoryItem {
    type V = HistoryItemModel;

    open spec fn deep_view(&self) -> HistoryItemModel {
        self@
    }
}

impl HistoryItem {
    pub fn new(position: usize, url: String) -> (r: HistoryItem)
        ensures
            r@ == (HistoryItemModel { position: position as int, url: url@ }),
    {
        HistoryItem { position, url }
    }
}

/// Mathematical model of a [`History`].
#[verifier::ext_equal]
pub struct HistoryModel {
    pub items: Seq<HistoryItemModel>,
    pub current: int,
}

/// The navigation history of one window.
pub struct History {
    items: Vec<HistoryItem>,
    current_position: usize,
}

impl View for History {
    type V = HistoryModel;

    closed spec fn view(&self) -> HistoryModel {
        HistoryModel { items: self.items.deep_view(), current: self.current_position as int }
    }
}

/// A healthy history: the cursor sits on an entry, or at zero when the
/// history is empty.
pub open spec fn spec_history_wf(m: HistoryModel) -> bool {
    if m.items.len() == 0 {
        m.current == 0
    } else {
        0 <= m.current < m.items.len()
    }
}

/// What the list keeps when a new address arrives: everything up to and
/// including the cursor.
pub open spec fn spec_history_kept(m: HistoryModel) -> Seq<HistoryItemModel> {
    if m.items.len() < m.current + 1 {
        m.items
    } else {
        m.items.take(m.current + 1)
    }
}

impl History {
    pub fn new() -> (r: History)
        ensures
            r@.items =~= Seq::<HistoryItemModel>::empty(),
            r@.current == 0,
            spec_history_wf(r@),
    {
        let r = History { items: Vec::new(), current_position: 0 };
        proof {
            assert(r@.items =~= Seq::<HistoryItemModel>::empty());
        }
        r
    }

    pub fn is_empty(&self) -> (r: bool)
        ensures
            r == (self@.items.len() == 0),
    {
        self.items.len() == 0
    }

    /// Records a navigation: every entry after the cursor is dropped, the
    /// new address is appended with its position, and the cursor moves onto
    /// it.
    pub fn add_to_history(&mut self, url: String)
        requires
            old(self)@.items.len() < usize::MAX,
        ensures
            ({
                let kept = spec_history_kept(old(self)@);
                &&& final(self)@.items == kept.push(
                    (HistoryItemModel { position: kept.len() as int, url: url@ }),
                )
                &&& final(self)@.current == kept.len() as int
                &&& spec_history_wf(final(self)@)
            }),
    {
        let ghost m0 = self@;
        while self.items.len() > 0 && self.items.len() - 1 > self.current_position
            invariant
                self.current_position == m0.current,
                self@.current == m0.current,
                self@.items =~= if m0.items.len() < self.items.len() as int {
                    m0.items
                } else {
                    m0.items.take(self.items.len() as int)
                },
                self.items.len() as int >= if m0.items.len() < m0.current + 1 {
                    m0.items.len() as int
                } else {
                    m0.current + 1
                },
            decreases self.items.len(),
        {
            let ghost before = self@.items;
            let _ = self.items.pop();
            proof {
                assert(self@.items =~= before.take(before.len() - 1));
                assert(self@.items =~= m0.items.take(self.items.len() as int));
            }
        }
        proof {
            assert(self@.items =~= spec_history_kept(m0));
        }
        let new_position = self.items.len();
        let item = HistoryItem { position: new_position, url };
        let ghost kept = self@.items;
        self.items.push(item);
        self.current_position = new_position;
        proof {
            assert(self@.items.len() == kept.len() + 1);
            assert(forall|t: int| 0 <= t < kept.len() ==> self@.items[t] == kept[t]);
            assert(self@.items[kept.len() as int] == (HistoryItemModel {
                position: kept.len() as int,
                url: self@.items[kept.len() as int].url,
            }));
            assert(self@.items =~= kept.push(
                (HistoryItemModel {
                    position: kept.len() as int,
                    url: self@.items[kept.len() as int].url,
                }),
            ));
        }
    }

    /// Steps the cursor back, handing out the entry it lands on; at the
    /// start of the history nothing changes.
    pub fn go_back(&mut self) -> (r: Option<&HistoryItem>)
        ensures
            old(self)@.current > 0 ==> {
                &&& final(self)@.items == old(self)@.items
                &&& final(self)@.current == old(self)@.current - 1
                &&& match r {
                    Some(it) => 0 <= final(self)@.current < final(self)@.items.len()
                        && it@ == final(self)@.items[final(self)@.current],
                    None => final(self)@.items.len() <= final(self)@.current,
                }
            },
            old(self)@.current == 0 ==> final(self)@ == old(self)@ && r is None,
    {
        if self.current_position > 0 {
            self.current_position = self.current_position - 1;
            if self.current_position < self.items.len() {
                proof {
                    assert(self.items[self.current_position as int]@ == self@.items[self@.current]);
                }
                Some(&self.items[self.current_position])
            } else {
                None
            }
        } else {
            None
        }
    }

    /// Steps the cursor forward, handing out the entry it lands on; at the
    /// end of the history nothing changes.
    pub fn go_forward(&mut self) -> (r: Option<&HistoryItem>)
        ensures
            old(self)@.current + 1 < old(self)@.items.len() ==> {
                &&& final(self)@.items == old(self)@.items
                &&& final(self)@.current == old(self)@.current + 1
                &&& match r {
                    Some(it) => it@ == final(self)@.items[final(self)@.current],
                    None => false,
                }
            },
            old(self)@.current + 1 >= old(self)@.items.len() ==> final(self)@ == old(self)@
                && r is None,
    {
        let n = self.items.len();
        if n > 0 && self.current_position < n - 1 {
            self.current_position = self.current_position + 1;
            proof {
                assert(self.items[self.current_position as int]@ == self@.items[self@.current]);
            }
            Some(&self.items[self.current_position])
        } else {
            None
        }
    }

    /// The entry under the cursor, if the history has one.
    pub fn current(&self) -> (r: Option<&HistoryItem>)
        ensures
            match r {
                Some(it) => 0 <= self@.current < self@.items.len() && it@
                    == self@.items[self@.current],
                None => self@.items.len() <= self@.current,
            },
    {
        if self.current_position < self.items.len() {
            proof {
                assert(self.items[self.current_position as int]@ == self@.items[self@.current]);
            }
            Some(&self.items[self.current_position])
        } else {
            None
        }
    }

    /// True when the cursor sits on the most recent entry.
    pub fn on_history_end(&self) -> (r: bool)
        ensures
            r == (self@.current + 1 == self@.items.len()),
    {
        let n = self.items.len();
        n > 0 && self.current_position == n - 1
    }

    /// True when the cursor sits on the oldest entry.
    pub fn on_history_start(&self) -> (r: bool)
        ensures
            r == (self@.current == 0),
    {
        self.current_position == 0
    }
}

} // verus!
