use vstd::prelude::*;

verus! {

use crate::vectors::Vector;

/// What a panel asks the driver to do when one of its controls fires.
pub enum UiAction {
    /// Push these panels onto the stack.
    Open { ids: Vec<String> },
    /// Replace the whole stack with these panels.
    Replace { ids: Vec<String> },
    /// Pop the current panel.
    Exit,
}

/// One selectable row of a fullscreen option list.
pub struct UiOption {
    pub id: String,
    pub display: String,
}

/// One drawable element of a panel. The drawing itself belongs to the
/// driver; the library holds the data and the selection arithmetic.
pub enum UiAtomic {
    Frame { hollow: bool, double: bool },
    FullscreenOptions { options: Vec<UiOption>, selected: usize },
    Text { text: String },
    WorldView { escape: String },
}

impl UiAtomic {
    /// Where an option cursor lands after one step, wrapping at both
    /// ends: stepping down from the last row lands on the first, stepping
    /// up from the first lands on the last.
    pub fn step_selection(count: usize, selected: usize, downward: bool) -> (r: usize)
        requires
            count >= 1,
            selected < count,
        ensures
            r < count,
            downward ==> r == (if selected + 1 == count {
                0int
            } else {
                selected + 1
            }),
            !downward ==> r == (if selected == 0 {
                count - 1
            } else {
                selected - 1
            }),
    {
        if downward {
            let next = selected + 1;
            if next == count {
                0
            } else {
                next
            }
        } else {
            if selected == 0 {
                count - 1
            } else {
                selected - 1
            }
        }
    }
}

/// One positioned block of a panel.
pub struct UiComponent {
    pub position: Vector,
    pub size: Vector,
    pub atomics: Vec<UiAtomic>,
}

/// The panel ids an action refers to: what `Open` would push.
pub open spec fn action_refs(action: &UiAction) -> Seq<String> {
    match action {
        UiAction::Open { ids } => ids@,
        _ => Seq::empty(),
    }
}

/// Every panel id the listed results refer to, in order.
pub open spec fn refs_of(results: Seq<(String, UiAction)>) -> Seq<String>
    decreases results.len(),
{
    if results.len() == 0 {
        Seq::empty()
    } else {
        refs_of(results.drop_last()) + action_refs(&results.last().1)
    }
}

/// One screen of the interface: what firing each control does, what to
/// draw, and whether the panel covers everything beneath it.
pub struct UiPanel {
    results: Vec<(String, UiAction)>,
    components: Vec<UiComponent>,
    clears: bool,
}

impl UiPanel {
    /// The control results, keyed by control id.
    pub closed spec fn results_spec(&self) -> Seq<(String, UiAction)> {
        self.results@
    }

    /// The drawable blocks.
    pub closed spec fn components_spec(&self) -> Seq<UiComponent> {
        self.components@
    }

    /// Whether the panel covers everything beneath it.
    pub closed spec fn clears_spec(&self) -> bool {
        self.clears
    }

    pub fn new(results: Vec<(String, UiAction)>, components: Vec<UiComponent>, clears: bool) -> (r:
        Self)
        ensures
            r.results_spec() == results@,
            r.components_spec() == components@,
            r.clears_spec() == clears,
    {
        UiPanel { results, components, clears }
    }

    /// Every panel id this panel's results refer to, in order.
    pub fn referenced_panels(&self) -> (r: Vec<&String>)
        ensures
            r@.len() == refs_of(self.results_spec()).len(),
            forall|k: int|
                0 <= k < r@.len() ==> *(#[trigger] r@[k]) == refs_of(self.results_spec())[k],
    {
        let mut references: Vec<&String> = Vec::new();
        let mut i: usize = 0;

        while i < self.results.len()
            invariant
                i <= self.results@.len(),
                references@.len() == refs_of(self.results@.take(i as int)).len(),
                forall|k: int|
                    0 <= k < references@.len() ==> *(#[trigger] references@[k]) == refs_of(
                        self.results@.take(i as int),
                    )[k],
            decreases self.results@.len() - i,
        {
            proof {
                assert(self.results@.take(i + 1).drop_last() =~= self.results@.take(i as int));
                assert(self.results@.take(i + 1).last() == self.results@[i as int]);
            }
            match &self.results[i].1 {
                UiAction::Open { ids } => {
                    let ghost done = refs_of(self.results@.take(i as int));
                    let mut j: usize = 0;

                    while j < ids.len()
                        invariant
                            j <= ids@.len(),
                            references@.len() == done.len() + j,
                            forall|k: int|
                                0 <= k < references@.len() ==> *(#[trigger] references@[k]) == (
                                done + ids@.take(j as int))[k],
                        decreases ids@.len() - j,
                    {
                        references.push(&ids[j]);
                        proof {
                            assert(ids@.take(j + 1) =~= ids@.take(j as int).push(
                                ids@[j as int],
                            ));
                        }
                        j += 1;
                    }
                    proof {
                        assert(ids@.take(ids@.len() as int) =~= ids@);
                    }
                },
                _ => {},
            }
            i += 1;
        }
        proof {
            assert(self.results@.take(self.results@.len() as int) =~= self.results@);
        }
        references
    }

    /// Whether the panel covers everything beneath it.
    pub fn clears(&self) -> (r: bool)
        ensures
            r == self.clears_spec(),
    {
        self.clears
    }
}

/// Whether some entry of `panels` is keyed by `key`.
pub open spec fn has_panel(panels: Seq<(String, UiPanel)>, key: Seq<char>) -> bool {
    exists|i: int| 0 <= i < panels.len() && panels[i].0@ == key
}

/// The index of the entry keyed by `key`; meaningful when keys are unique
/// and `key` is present.
pub open spec fn panel_index(panels: Seq<(String, UiPanel)>, key: Seq<char>) -> int {
    choose|i: int| 0 <= i < panels.len() && panels[i].0@ == key
}

/// Panel keys are pairwise distinct.
pub open spec fn panels_distinct(panels: Seq<(String, UiPanel)>) -> bool {
    forall|i: int, j: int|
        0 <= i < j < panels.len() ==> (#[trigger] panels[i]).0@ != (#[trigger] panels[j]).0@
}

/// With distinct keys, an entry keyed by `key` is the entry `panel_index`
/// names.
proof fn lemma_panel_index_is(panels: Seq<(String, UiPanel)>, key: Seq<char>, i: int)
    requires
        panels_distinct(panels),
        0 <= i < panels.len(),
        panels[i].0@ == key,
    ensures
        has_panel(panels, key),
        panel_index(panels, key) == i,
{
    assert(has_panel(panels, key));
    let j = panel_index(panels, key);
    assert(0 <= j < panels.len() && panels[j].0@ == key);
    if i < j {
        assert(panels[i].0@ != panels[j].0@);
    }
    if j < i {
        assert(panels[j].0@ != panels[i].0@);
    }
}

/// The whole interface configuration: which panels start open, and every
/// panel by id.
pub struct UiMaster {
    opened: Vec<String>,
    panels: Vec<(String, UiPanel)>,
}

impl UiMaster {
    /// The ids of the panels that start open, bottom of the stack first.
    pub closed spec fn opened_spec(&self) -> Seq<String> {
        self.opened@
    }

    /// Every panel with its id.
    pub closed spec fn panels_spec(&self) -> Seq<(String, UiPanel)> {
        self.panels@
    }

    /// The configuration's invariant: one panel per id.
    pub open spec fn wf(&self) -> bool {
        panels_distinct(self.panels_spec())
    }

    /// Every id the configuration mentions names a panel it holds.
    pub open spec fn spec_consistent(&self) -> bool {
        &&& forall|i: int|
            0 <= i < self.opened_spec().len() ==> has_panel(
                self.panels_spec(),
                (#[trigger] self.opened_spec()[i])@,
            )
        &&& forall|p: int, j: int|
            0 <= p < self.panels_spec().len() && 0 <= j < refs_of(
                (#[trigger] self.panels_spec()[p]).1.results_spec(),
            ).len() ==> has_panel(
                self.panels_spec(),
                (#[trigger] refs_of(self.panels_spec()[p].1.results_spec())[j])@,
            )
    }

    pub fn new(opened: Vec<String>, panels: Vec<(String, UiPanel)>) -> (r: Self)
        requires
            panels_distinct(panels@),
        ensures
            r.wf(),
            r.opened_spec() == opened@,
            r.panels_spec() == panels@,
    {
        UiMaster { opened, panels }
    }

    /// The index of the panel with this id, if any.
    fn find_panel(&self, id: &String) -> (r: Option<usize>)
        requires
            self.wf(),
        ensures
            match r {
                Some(i) => {
                    &&& i < self.panels_spec().len()
                    &&& self.panels_spec()[i as int].0@ == id@
                    &&& has_panel(self.panels_spec(), id@)
                    &&& panel_index(self.panels_spec(), id@) == i
                },
                None => !has_panel(self.panels_spec(), id@),
            },
    {
        let mut i: usize = 0;

        while i < self.panels.len()
            invariant
                self.wf(),
                i <= self.panels@.len(),
                forall|m: int| 0 <= m < i ==> (#[trigger] self.panels@[m]).0@ != id@,
            decreases self.panels@.len() - i,
        {
            if compare_ids(&self.panels[i].0, id) {
                proof {
                    lemma_panel_index_is(self.panels@, id@, i as int);
                }
                return Some(i);
            }
            i += 1;
        }
        proof {
            if has_panel(self.panels@, id@) {
                let w = choose|w: int|
                    0 <= w < self.panels@.len() && self.panels@[w].0@ == id@;
            }
        }
        None
    }

    /// The panel with this id, if the configuration holds one.
    pub fn get_panel(&self, id: &String) -> (r: Option<&UiPanel>)
        requires
            self.wf(),
        ensures
            match r {
                Some(p) => has_panel(self.panels_spec(), id@) && *p == self.panels_spec()[
                    panel_index(self.panels_spec(), id@)
                ].1,
                None => !has_panel(self.panels_spec(), id@),
            },
    {
        match self.find_panel(id) {
            Some(i) => Some(&self.panels[i].1),
            None => None,
        }
    }

    /// Whether every id the configuration mentions — the starting stack
    /// and every panel reference — names a panel it holds.
    pub fn verify(&self) -> (r: bool)
        requires
            self.wf(),
        ensures
            r == self.spec_consistent(),
    {
        let mut i: usize = 0;

        while i < self.opened.len()
            invariant
                self.wf(),
                i <= self.opened@.len(),
                forall|m: int|
                    0 <= m < i ==> has_panel(
                        self.panels_spec(),
                        (#[trigger] self.opened@[m])@,
                    ),
            decreases self.opened@.len() - i,
        {
            if self.find_panel(&self.opened[i]).is_none() {
                proof {
                    assert(!has_panel(self.panels_spec(), (self.opened_spec()[i as int])@));
                }
                return false;
            }
            i += 1;
        }

        let mut p: usize = 0;

        while p < self.panels.len()
            invariant
                self.wf(),
                p <= self.panels@.len(),
                forall|m: int|
                    0 <= m < self.opened@.len() ==> has_panel(
                        self.panels_spec(),
                        (#[trigger] self.opened@[m])@,
                    ),
                forall|m: int, j: int|
                    0 <= m < p && 0 <= j < refs_of(
                        (#[trigger] self.panels@[m]).1.results_spec(),
                    ).len() ==> has_panel(
                        self.panels_spec(),
                        (#[trigger] refs_of(self.panels@[m].1.results_spec())[j])@,
                    ),
            decreases self.panels@.len() - p,
        {
            let references = self.panels[p].1.referenced_panels();
            let mut j: usize = 0;

            while j < references.len()
                invariant
                    self.wf(),
                    p < self.panels@.len(),
                    references@.len() == refs_of(self.panels@[p as int].1.results_spec()).len(),
                    forall|k: int|
                        0 <= k < references@.len() ==> *(#[trigger] references@[k]) == refs_of(
                            self.panels@[p as int].1.results_spec(),
                        )[k],
                    j <= references@.len(),
                    forall|k: int|
                        0 <= k < j ==> has_panel(
                            self.panels_spec(),
                            (#[trigger] refs_of(self.panels@[p as int].1.results_spec())[k])@,
                        ),
                decreases references@.len() - j,
            {
                if self.find_panel(references[j]).is_none() {
                    proof {
                        assert(!has_panel(
                            self.panels_spec(),
                            (refs_of(self.panels_spec()[p as int].1.results_spec())[j as int])@,
                        ));
                    }
                    return false;
                }
                j += 1;
            }
            p += 1;
        }
        true
    }

    /// The panels that start open, in stack order, skipping any id that
    /// names no panel.
    pub fn open_panels(&self) -> (r: Vec<&UiPanel>)
        requires
            self.wf(),
        ensures
            r@.len() == opened_of(self.opened_spec(), self.panels_spec()).len(),
            forall|k: int|
                0 <= k < r@.len() ==> *(#[trigger] r@[k]) == opened_of(
                    self.opened_spec(),
                    self.panels_spec(),
                )[k],
    {
        let mut result: Vec<&UiPanel> = Vec::new();
        let mut i: usize = 0;

        while i < self.opened.len()
            invariant
                self.wf(),
                i <= self.opened@.len(),
                result@.len() == opened_of(self.opened@.take(i as int), self.panels@).len(),
                forall|k: int|
                    0 <= k < result@.len() ==> *(#[trigger] result@[k]) == opened_of(
                        self.opened@.take(i as int),
                        self.panels@,
                    )[k],
            decreases self.opened@.len() - i,
        {
            proof {
                assert(self.opened@.take(i + 1).drop_last() =~= self.opened@.take(i as int));
                assert(self.opened@.take(i + 1).last() == self.opened@[i as int]);
            }
            match self.get_panel(&self.opened[i]) {
                Some(panel) => {
                    result.push(panel);
                },
                None => {},
            }
            i += 1;
        }
        proof {
            assert(self.opened@.take(self.opened@.len() as int) =~= self.opened@);
        }
        result
    }
}

/// The panels the listed ids name, in order, ids naming no panel skipped.
pub open spec fn opened_of(opened: Seq<String>, panels: Seq<(String, UiPanel)>) -> Seq<UiPanel>
    decreases opened.len(),
{
    if opened.len() == 0 {
        Seq::empty()
    } else {
        opened_of(opened.drop_last(), panels) + (if has_panel(panels, opened.last()@) {
            seq![panels[panel_index(panels, opened.last()@)].1]
        } else {
            Seq::empty()
        })
    }
}

/// Whether two panel ids hold the same characters.
fn compare_ids(a: &String, b: &String) -> (r: bool)
    ensures
        r == (a@ == b@),
{
    *a == *b
}

} // verus!
