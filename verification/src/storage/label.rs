//! Labels (named pointers to layers, with a version for optimistic
//! updates) and the table that holds them.

use vstd::prelude::*;

verus! {

/// A label: a name, the layer it points at (if any) and a version that
/// grows by one with every update.
#[derive(Clone, Debug, PartialEq, Eq)]
pub struct Label {
    pub name: String,
    pub layer: Option<[u32; 5]>,
    pub version: u64,
}

/// Why a label operation was refused.
#[derive(Clone, Copy, Debug, PartialEq, Eq)]
pub enum LabelError {
    /// A label of that name exists already.
    LabelAlreadyExists,
    /// No label of that name exists.
    LabelDoesNotExist,
}

/// `l` is the label named `name` that points at nothing, at version 0.
pub open spec fn is_empty_label(l: Label, name: Seq<char>) -> bool {
    l.name@ == name && l.layer is None && l.version == 0
}

impl Label {
    /// This label pointed at `layer`, one version later.
    pub open spec fn updated(self, layer: Option<[u32; 5]>) -> Label {
        Label { name: self.name, layer, version: (self.version + 1) as u64 }
    }

    /// A label of the given name that points at nothing, at version 0.
    pub fn new_empty(name: &str) -> (label: Label)
        ensures
            label.name@ == name@,
            label.layer is None,
            label.version == 0,
    {
        Label { name: name.to_owned(), layer: None, version: 0 }
    }

    /// This label pointed at `layer`, one version later.
    pub fn with_updated_layer(&self, layer: Option<[u32; 5]>) -> (label: Label)
        requires
            self.version < u64::MAX,
        ensures
            label == self.updated(layer),
    {
        Label { name: self.name.clone(), layer, version: self.version + 1 }
    }

    /// A copy of this label.
    pub fn duplicate(&self) -> (label: Label)
        ensures
            label == *self,
    {
        Label { name: self.name.clone(), layer: self.layer, version: self.version }
    }
}

/// The label of the given name, if there is one.
pub open spec fn get_spec(m: Map<Seq<char>, Label>, name: Seq<char>) -> Option<Label> {
    if m.contains_key(name) {
        Some(m[name])
    } else {
        None
    }
}

/// What moving `label` to `layer` does: refused when no label of its name
/// exists; no change (and no label back) when the stored label is not the
/// version that `label` was read at; otherwise the label one version later
/// is stored and returned.
pub open spec fn set_spec(m: Map<Seq<char>, Label>, label: Label, layer: Option<[u32; 5]>) -> (
    Map<Seq<char>, Label>,
    Result<Option<Label>, LabelError>,
) {
    let new_label = label.updated(layer);
    if !m.contains_key(label.name@) {
        (m, Err(LabelError::LabelDoesNotExist))
    } else if m[label.name@].version + 1 != new_label.version {
        (m, Ok(None))
    } else {
        (m.insert(label.name@, new_label), Ok(Some(new_label)))
    }
}

/// A label created in a table where its name was free is what a read of
/// that name gives back afterwards; every other name reads as before.
pub proof fn lemma_get_after_create(m: Map<Seq<char>, Label>, name: Seq<char>, l: Label)
    requires
        !m.contains_key(name),
        is_empty_label(l, name),
    ensures
        get_spec(m.insert(name, l), name) == Some(l),
        forall|n: Seq<char>| n != name ==> #[trigger] get_spec(m.insert(name, l), n) == get_spec(m, n),
{
}

/// After a successful update, reading the label's name gives the updated
/// label back.
pub proof fn lemma_get_after_set(m: Map<Seq<char>, Label>, label: Label, layer: Option<[u32; 5]>)
    requires
        set_spec(m, label, layer).1 is Ok,
        set_spec(m, label, layer).1->Ok_0 is Some,
    ensures
        get_spec(set_spec(m, label, layer).0, label.name@) == set_spec(m, label, layer).1->Ok_0,
{
}

/// What an update answers, over every store and label: it is refused
/// exactly when no label of that name is stored; a stored label at a
/// version other than the one `label` was read at gives no label and no
/// change; a stored label at that version is replaced by `label` pointed at
/// `layer` one version later, which is returned.
pub proof fn lemma_set_outcomes(m: Map<Seq<char>, Label>, label: Label, layer: Option<[u32; 5]>)
    requires
        label.version < u64::MAX,
    ensures
        ({
            let (after, r) = set_spec(m, label, layer);
            &&& (r is Err <==> !m.contains_key(label.name@))
            &&& (r is Err ==> r == Err::<Option<Label>, LabelError>(LabelError::LabelDoesNotExist) && after == m)
            &&& (m.contains_key(label.name@) && m[label.name@].version != label.version ==> r
                == Ok::<Option<Label>, LabelError>(None) && after == m)
            &&& (m.contains_key(label.name@) && m[label.name@].version == label.version ==> {
                &&& r == Ok::<Option<Label>, LabelError>(
                    Some(Label { name: label.name, layer, version: (label.version + 1) as u64 }),
                )
                &&& after == m.insert(
                    label.name@,
                    Label { name: label.name, layer, version: (label.version + 1) as u64 },
                )
            })
        }),
{
}

/// Updating twice from the same label object: once the first update has
/// succeeded, the second finds a newer version stored, returns no label
/// and changes nothing.
pub proof fn lemma_second_set_from_same_label_is_refused(
    m: Map<Seq<char>, Label>,
    label: Label,
    first: Option<[u32; 5]>,
    second: Option<[u32; 5]>,
)
    requires
        label.version < u64::MAX,
        set_spec(m, label, first).1 matches Ok(Some(_)),
    ensures
        ({
            let after = set_spec(m, label, first).0;
            set_spec(after, label, second) == (after, Ok::<Option<Label>, LabelError>(None))
        }),
{
}

/// Updating from the label that a successful update returned succeeds in
/// turn (as long as its version can still grow).
pub proof fn lemma_set_from_updated_label_succeeds(
    m: Map<Seq<char>, Label>,
    label: Label,
    first: Option<[u32; 5]>,
    second: Option<[u32; 5]>,
)
    requires
        label.version + 1 < u64::MAX,
        set_spec(m, label, first).1 matches Ok(Some(_)),
    ensures
        ({
            let after = set_spec(m, label, first).0;
            let updated = label.updated(first);
            &&& set_spec(m, label, first).1 == Ok::<Option<Label>, LabelError>(Some(updated))
            &&& set_spec(after, updated, second).1 == Ok::<Option<Label>, LabelError>(
                Some(updated.updated(second)),
            )
        }),
{
}

/// An update never adds or removes a label and never touches another name;
/// the label it updates goes up exactly one version, and a refused update
/// changes nothing.
pub proof fn lemma_set_advances_one_version(
    m: Map<Seq<char>, Label>,
    label: Label,
    layer: Option<[u32; 5]>,
)
    requires
        label.version < u64::MAX,
    ensures
        ({
            let (after, r) = set_spec(m, label, layer);
            &&& after.dom() == m.dom()
            &&& forall|n: Seq<char>| n != label.name@ && #[trigger] m.contains_key(n) ==> after[n] == m[n]
            &&& match r {
                Ok(Some(l)) => after[label.name@] == l && l.version == m[label.name@].version + 1,
                _ => after == m,
            }
        }),
{
    let (after, r) = set_spec(m, label, layer);
    if r matches Ok(Some(_)) {
        assert(after.dom() =~= m.dom());
    }
}

/// What creating the label `name` did, taking `before` to `after` with
/// result `r`: when the name was free, the empty label of that name is
/// added and returned; otherwise it is refused with
/// [`LabelError::LabelAlreadyExists`] and nothing changes.
pub open spec fn create_step(
    before: Map<Seq<char>, Label>,
    after: Map<Seq<char>, Label>,
    name: Seq<char>,
    r: Result<Label, LabelError>,
) -> bool {
    match r {
        Ok(l) => {
            &&& is_empty_label(l, name)
            &&& !before.contains_key(name)
            &&& after == before.insert(name, l)
        },
        Err(e) => {
            &&& e == LabelError::LabelAlreadyExists
            &&& before.contains_key(name)
            &&& after == before
        },
    }
}

/// Creations of the same label name, one after another (as racing calls
/// are, in the order the store serves them), starting where the name is
/// free: the first creates the empty label and every later one is refused;
/// afterwards the store holds that one label under the name, and nothing
/// else has changed.
pub proof fn lemma_racing_creations(
    states: Seq<Map<Seq<char>, Label>>,
    name: Seq<char>,
    results: Seq<Result<Label, LabelError>>,
)
    requires
        results.len() >= 1,
        states.len() == results.len() + 1,
        !states[0].contains_key(name),
        forall|i: int| 0 <= i < results.len() ==> create_step(states[i], states[i + 1], name, #[trigger] results[i]),
    ensures
        results[0] is Ok,
        is_empty_label(results[0]->Ok_0, name),
        forall|i: int| 1 <= i < results.len() ==> #[trigger] results[i] == Err::<Label, LabelError>(
            LabelError::LabelAlreadyExists,
        ),
        states.last() == states[0].insert(name, results[0]->Ok_0),
    decreases results.len(),
{
    let k = results.len() - 1;
    assert(create_step(states[0], states[1], name, results[0]));
    if k > 0 {
        let ps = states.subrange(0, k + 1);
        let pr = results.subrange(0, k);
        assert forall|i: int| 0 <= i < pr.len() implies create_step(ps[i], ps[i + 1], name, #[trigger] pr[i]) by {
            assert(create_step(states[i], states[i + 1], name, results[i]));
        }
        lemma_racing_creations(ps, name, pr);
        assert(pr[0] == results[0]);
        assert(ps.last() == states[k]);
        assert(create_step(states[k], states[k + 1], name, results[k]));
        assert(states[k].contains_key(name));
        assert forall|i: int| 1 <= i < results.len() implies #[trigger] results[i] == Err::<Label, LabelError>(
            LabelError::LabelAlreadyExists,
        ) by {
            if i < k {
                assert(pr[i] == results[i]);
            }
        }
    }
}

/// Updates of one label from label objects all read at the version now
/// stored, one after another (as racing calls are, in the order the store
/// serves them): the first succeeds and every later one gets `None`;
/// afterwards the store holds the first one's result, one version later,
/// and nothing else has changed.
pub proof fn lemma_racing_updates(
    states: Seq<Map<Seq<char>, Label>>,
    name: Seq<char>,
    version: u64,
    labels: Seq<Label>,
    layers: Seq<Option<[u32; 5]>>,
    results: Seq<Result<Option<Label>, LabelError>>,
)
    requires
        results.len() >= 1,
        states.len() == results.len() + 1,
        labels.len() == results.len(),
        layers.len() == results.len(),
        version < u64::MAX,
        states[0].contains_key(name),
        states[0][name].version == version,
        forall|i: int| 0 <= i < labels.len() ==> (#[trigger] labels[i]).name@ == name && labels[i].version == version,
        forall|i: int| 0 <= i < results.len() ==> (states[i + 1], #[trigger] results[i]) == set_spec(states[i], labels[i], layers[i]),
    ensures
        results[0] == Ok::<Option<Label>, LabelError>(Some(labels[0].updated(layers[0]))),
        forall|i: int| 1 <= i < results.len() ==> #[trigger] results[i] == Ok::<Option<Label>, LabelError>(None),
        states.last() == states[0].insert(name, labels[0].updated(layers[0])),
        states.last()[name].version == version + 1,
    decreases results.len(),
{
    let k = results.len() - 1;
    assert((states[1], results[0]) == set_spec(states[0], labels[0], layers[0]));
    assert(labels[0].name@ == name && labels[0].version == version);
    if k > 0 {
        let ps = states.subrange(0, k + 1);
        let pl = labels.subrange(0, k);
        let py = layers.subrange(0, k);
        let pr = results.subrange(0, k);
        assert forall|i: int| 0 <= i < pl.len() implies (#[trigger] pl[i]).name@ == name && pl[i].version == version by {
            assert(labels[i].name@ == name && labels[i].version == version);
        }
        assert forall|i: int| 0 <= i < pr.len() implies (ps[i + 1], #[trigger] pr[i]) == set_spec(ps[i], pl[i], py[i]) by {
            assert((states[i + 1], results[i]) == set_spec(states[i], labels[i], layers[i]));
        }
        lemma_racing_updates(ps, name, version, pl, py, pr);
        assert(pr[0] == results[0]);
        assert(pl[0] == labels[0] && py[0] == layers[0]);
        assert(ps.last() == states[k]);
        assert((states[k + 1], results[k]) == set_spec(states[k], labels[k], layers[k]));
        assert(labels[k].name@ == name && labels[k].version == version);
        assert forall|i: int| 1 <= i < results.len() implies #[trigger] results[i] == Ok::<Option<Label>, LabelError>(None) by {
            if i < k {
                assert(pr[i] == results[i]);
            }
        }
    }
}

/// The labels of a store, at most one per name.
pub struct LabelTable {
    labels: Vec<Label>,
}

impl LabelTable {
    /// No two stored labels share a name.
    pub closed spec fn wf(&self) -> bool {
        forall|i: int, j: int|
            0 <= i < j < self.labels@.len() ==> #[trigger] self.labels@[i].name@
                != #[trigger] self.labels@[j].name@
    }

    spec fn has_name(&self, name: Seq<char>) -> bool {
        exists|i: int| 0 <= i < self.labels@.len() && #[trigger] self.labels@[i].name@ == name
    }

    spec fn index_of(&self, name: Seq<char>) -> int {
        choose|i: int| 0 <= i < self.labels@.len() && #[trigger] self.labels@[i].name@ == name
    }

    proof fn lemma_index_of(&self, i: int)
        requires
            self.wf(),
            0 <= i < self.labels@.len(),
        ensures
            self.has_name(self.labels@[i].name@),
            self.index_of(self.labels@[i].name@) == i,
    {
        let n = self.labels@[i].name@;
        assert(self.has_name(n));
        let j = self.index_of(n);
        if j != i {
            if j < i {
                assert(self.labels@[j].name@ != self.labels@[i].name@);
            } else {
                assert(self.labels@[i].name@ != self.labels@[j].name@);
            }
        }
    }

    /// The stored labels, keyed by name.
    pub closed spec fn view(&self) -> Map<Seq<char>, Label> {
        Map::new(|n: Seq<char>| self.has_name(n), |n: Seq<char>| self.labels@[self.index_of(n)])
    }

    /// Every label is stored under its own name.
    pub proof fn lemma_keys_are_names(&self)
        requires
            self.wf(),
        ensures
            forall|n: Seq<char>| #[trigger] self.view().contains_key(n) ==> self.view()[n].name@ == n,
    {
    }

    /// An empty table.
    pub fn new() -> (t: LabelTable)
        ensures
            t.wf(),
            t.view() == Map::<Seq<char>, Label>::empty(),
    {
        let t = LabelTable { labels: Vec::new() };
        assert(t.view() =~= Map::<Seq<char>, Label>::empty());
        t
    }

    /// The position of the label named `name`, if there is one.
    fn find(&self, name: &String) -> (r: Option<usize>)
        requires
            self.wf(),
        ensures
            match r {
                Some(i) => i < self.labels@.len() && self.labels@[i as int].name@ == name@,
                None => !self.has_name(name@),
            },
    {
        let mut i: usize = 0;
        while i < self.labels.len()
            invariant
                i <= self.labels@.len(),
                forall|k: int| 0 <= k < i ==> #[trigger] self.labels@[k].name@ != name@,
            decreases self.labels@.len() - i,
        {
            if self.labels[i].name == *name {
                return Some(i);
            }
            i = i + 1;
        }
        None
    }

    /// The label named `name`, if there is one.
    pub fn get_label(&self, name: &str) -> (r: Option<Label>)
        requires
            self.wf(),
        ensures
            r == get_spec(self.view(), name@),
    {
        let key = name.to_owned();
        match self.find(&key) {
            Some(i) => {
                proof {
                    self.lemma_index_of(i as int);
                }
                Some(self.labels[i].duplicate())
            },
            None => None,
        }
    }

    /// Creates the empty label named `name`, refused when the name is taken.
    pub fn create_label(&mut self, name: &str) -> (r: Result<Label, LabelError>)
        requires
            old(self).wf(),
        ensures
            final(self).wf(),
            create_step(old(self).view(), final(self).view(), name@, r),
    {
        let label = Label::new_empty(name);
        match self.find(&label.name) {
            Some(i) => {
                proof {
                    self.lemma_index_of(i as int);
                }
                Err(LabelError::LabelAlreadyExists)
            },
            None => {
                let ghost old_t = *self;
                let stored = label.duplicate();
                self.labels.push(stored);
                proof {
                    assert forall|i: int, j: int|
                        0 <= i < j < self.labels@.len() implies #[trigger] self.labels@[i].name@
                        != #[trigger] self.labels@[j].name@ by {
                        if j == self.labels@.len() - 1 {
                            assert(old_t.labels@[i] == self.labels@[i]);
                            if self.labels@[i].name@ == label.name@ {
                                assert(old_t.has_name(label.name@));
                            }
                        } else {
                            assert(old_t.labels@[i] == self.labels@[i]);
                            assert(old_t.labels@[j] == self.labels@[j]);
                        }
                    }
                    self.lemma_index_of(self.labels@.len() - 1);
                    assert forall|n: Seq<char>| #[trigger] self.view().contains_key(n) == old_t.view().insert(label.name@, label).contains_key(n) by {
                        if old_t.has_name(n) {
                            let k = old_t.index_of(n);
                            assert(self.labels@[k] == old_t.labels@[k]);
                            assert(self.has_name(n));
                        }
                        if self.has_name(n) && n != label.name@ {
                            let k = self.index_of(n);
                            assert(k < old_t.labels@.len());
                            assert(old_t.labels@[k] == self.labels@[k]);
                            assert(old_t.has_name(n));
                        }
                    }
                    assert forall|n: Seq<char>| #[trigger] self.view().contains_key(n) implies self.view()[n] == old_t.view().insert(label.name@, label)[n] by {
                        if n != label.name@ {
                            let k = self.index_of(n);
                            assert(k < old_t.labels@.len());
                            assert(old_t.labels@[k] == self.labels@[k]);
                            assert(old_t.has_name(n));
                            old_t.lemma_index_of(k);
                        }
                    }
                    assert(self.view() =~= old_t.view().insert(label.name@, label));
                }
                Ok(label)
            },
        }
    }

    /// Moves `label` to `layer` if the stored label of its name is still the
    /// version `label` was read at; see [`set_spec`].
    pub fn set_label_option(&mut self, label: &Label, layer: Option<[u32; 5]>) -> (r: Result<
        Option<Label>,
        LabelError,
    >)
        requires
            old(self).wf(),
            label.version < u64::MAX,
        ensures
            final(self).wf(),
            (final(self).view(), r) == set_spec(old(self).view(), *label, layer),
            r is Err <==> !old(self).view().contains_key(label.name@),
            r is Err ==> r == Err::<Option<Label>, LabelError>(LabelError::LabelDoesNotExist) && final(self).view() == old(self).view(),
            old(self).view().contains_key(label.name@) && old(self).view()[label.name@].version != label.version
                ==> r == Ok::<Option<Label>, LabelError>(None) && final(self).view() == old(self).view(),
            old(self).view().contains_key(label.name@) && old(self).view()[label.name@].version == label.version
                ==> r == Ok::<Option<Label>, LabelError>(Some(label.updated(layer)))
                && final(self).view() == old(self).view().insert(label.name@, label.updated(layer)),
    {
        let new_label = label.with_updated_layer(layer);
        match self.find(&label.name) {
            None => Err(LabelError::LabelDoesNotExist),
            Some(i) => {
                proof {
                    self.lemma_index_of(i as int);
                }
                if self.labels[i].version != label.version {
                    Ok(None)
                } else {
                    let ghost old_t = *self;
                    let stored = new_label.duplicate();
                    self.labels.set(i, stored);
                    proof {
                        assert forall|a: int, b: int|
                            0 <= a < b < self.labels@.len() implies #[trigger] self.labels@[a].name@
                            != #[trigger] self.labels@[b].name@ by {
                            assert(old_t.labels@[a].name@ == self.labels@[a].name@);
                            assert(old_t.labels@[b].name@ == self.labels@[b].name@);
                        }
                        assert forall|n: Seq<char>| #[trigger] self.has_name(n) == old_t.has_name(n) by {
                            if old_t.has_name(n) {
                                let k = old_t.index_of(n);
                                assert(self.labels@[k].name@ == old_t.labels@[k].name@);
                            }
                            if self.has_name(n) {
                                let k = self.index_of(n);
                                assert(self.labels@[k].name@ == old_t.labels@[k].name@);
                            }
                        }
                        self.lemma_index_of(i as int);
                        assert forall|n: Seq<char>| #[trigger] self.view().contains_key(n) implies self.view()[n] == old_t.view().insert(label.name@, new_label)[n] by {
                            if n != label.name@ {
                                let k = self.index_of(n);
                                assert(self.labels@[k].name@ == old_t.labels@[k].name@);
                                old_t.lemma_index_of(k);
                                assert(k != i);
                            }
                        }
                        assert(self.view() =~= old_t.view().insert(label.name@, new_label));
                    }
                    Ok(Some(new_label))
                }
            },
        }
    }

    /// Every stored label, once each, in no particular order.
    pub fn labels(&self) -> (r: Vec<Label>)
        requires
            self.wf(),
        ensures
            forall|i: int, j: int| 0 <= i < j < r@.len() ==> #[trigger] r@[i].name@ != #[trigger] r@[j].name@,
            forall|i: int| 0 <= i < r@.len() ==> #[trigger] get_spec(self.view(), r@[i].name@) == Some(r@[i]),
            forall|n: Seq<char>| #[trigger] self.view().contains_key(n) ==> exists|i: int| 0 <= i < r@.len() && r@[i].name@ == n,
    {
        let mut r: Vec<Label> = Vec::new();
        let mut i: usize = 0;
        while i < self.labels.len()
            invariant
                self.wf(),
                i <= self.labels@.len(),
                r@ == self.labels@.subrange(0, i as int),
            decreases self.labels@.len() - i,
        {
            r.push(self.labels[i].duplicate());
            proof {
                assert(self.labels@.subrange(0, i + 1) =~= self.labels@.subrange(0, i as int).push(self.labels@[i as int]));
            }
            i = i + 1;
        }
        proof {
            assert(r@ =~= self.labels@);
            assert forall|k: int| 0 <= k < r@.len() implies #[trigger] get_spec(self.view(), r@[k].name@) == Some(r@[k]) by {
                self.lemma_index_of(k);
            }
        }
        r
    }
}

} // verus!
