//! Named documents that hold the state or the layout of extensions, and the
//! manager of the document that is current.

use crate::errors::{OmniverlayError, OmniverlayErrorView, OmniverlayResult};
use crate::extensions::codec::{
    decode_layout_document, decode_layouts, decode_profile, decode_profile_document,
    encode_layout_document, encode_layouts, encode_profile, encode_profile_document,
    lemma_layouts_round_trip, lemma_profile_round_trip, shape_error, states_view,
};
use crate::extensions::{
    distinct_infos, has_name, index_of_name, records_view, Extension, ExtensionInfoView,
    ExtensionLayout, ExtensionManager, ExtensionState, ExtensionStateView,
};
use crate::utils::json::{JsonValue, JsonValueView};
use crate::utils::name_map::{
    distinct_names, entries_map, lemma_contains, lemma_entry_at, lemma_push, lemma_update, NameMap,
};
use crate::utils::text::{auto_name, auto_name_of};
use vstd::prelude::*;
use vstd::string::{StrSliceExecFns, StringExecFns};

verus! {

/// The name of the file that holds the document called `name`.
pub open spec fn file_name_of(name: Seq<char>) -> Seq<char> {
    name + ".json"@
}

/// A named document that can be written into the registry and can take in
/// the registry's extensions.
pub trait OmniverlayData: Sized {
    /// The document's name, which is also the stem of its file's name.
    spec fn doc_name(&self) -> Seq<char>;

    /// The directory, under the application's own, that holds the documents
    /// of this kind.
    spec fn dir_name_of() -> Seq<char>;

    /// What applying the document does to the records `before`, and what it returns.
    spec fn applied(
        &self,
        before: Seq<ExtensionInfoView>,
        after: Seq<ExtensionInfoView>,
        r: OmniverlayResult<()>,
    ) -> bool;

    /// `after` is what the document `before` becomes when it takes in the
    /// records `infos`.
    spec fn reconciled(before: Self, after: Self, infos: Seq<ExtensionInfoView>) -> bool;

    /// Taking in the registry does not rename a document.
    proof fn lemma_reconciled_name(before: Self, after: Self, infos: Seq<ExtensionInfoView>)
        requires
            Self::reconciled(before, after, infos),
        ensures
            after.doc_name() == before.doc_name(),
    ;

    fn name(&self) -> (r: OmniverlayResult<String>)
        ensures
            r matches Ok(n) && n@ == self.doc_name(),
    ;

    /// Writes the document into the registry. No hook runs.
    fn apply_to_extensions<E: Extension>(&self, manager: &mut ExtensionManager<E>) -> (r:
        OmniverlayResult<()>)
        ensures
            self.applied(old(manager).infos(), final(manager).infos(), r),
            final(manager).held() == old(manager).held(),
    ;

    /// Takes in the registry, once, after the document has been read and
    /// before it becomes current.
    fn on_load<E: Extension>(&mut self, manager: &ExtensionManager<E>) -> (r: OmniverlayResult<()>)
        ensures
            r is Ok,
            Self::reconciled(*old(self), *final(self), manager.infos()),
    ;

    fn dir_name() -> (r: String)
        ensures
            r@ == Self::dir_name_of(),
    ;

    /// The word for this kind of document in the name of a new one.
    spec fn kind_of() -> Seq<char>;

    fn kind() -> (r: String)
        ensures
            r@ == Self::kind_of(),
    ;

    /// `doc` is the document called `name` that names no extension.
    spec fn is_empty_named(doc: Self, name: Seq<char>) -> bool;

    /// The document called `name` that names no extension.
    fn named(name: String) -> (doc: Self)
        ensures
            Self::is_empty_named(doc, name@),
    ;

    /// The document as JSON.
    spec fn json_of(&self) -> JsonValueView;

    /// The JSON value has the shape of a document of this kind.
    spec fn has_shape(json: JsonValueView) -> bool;

    /// `doc` is the document that the JSON value stands for.
    spec fn read_from(json: JsonValueView, doc: Self) -> bool;

    /// Two documents have the same name and hold the same under each name.
    spec fn same_content(&self, other: &Self) -> bool;

    /// What is read back from the JSON of a document is that document.
    proof fn lemma_json_round_trip(doc: Self, back: Self)
        ensures
            Self::has_shape(doc.json_of()),
            Self::read_from(doc.json_of(), back) ==> back.same_content(&doc),
    ;

    fn to_json(&self) -> (r: OmniverlayResult<JsonValue>)
        ensures
            r matches Ok(json) && json@ == self.json_of(),
    ;

    /// Reads a document from JSON. A value that does not have the shape
    /// of a document of this kind is refused.
    fn from_json(json: &JsonValue) -> (r: OmniverlayResult<Self>)
        ensures
            match r {
                Ok(doc) => Self::has_shape(json@) && Self::read_from(json@, doc),
                Err(e) => !Self::has_shape(json@) && e@ == shape_error(),
            },
    ;
}

/// The entries of a map of states, each state by its view.
pub open spec fn state_entries(m: NameMap<ExtensionState>) -> Seq<(Seq<char>, ExtensionStateView)> {
    m.entries().map_values(|e: (Seq<char>, ExtensionState)| (e.0, e.1@))
}

/// How many of the leading entries carry a registered name: `k` is that
/// number when every entry before `k` is registered and the entry at `k`,
/// if there is one, is not.
pub open spec fn is_known_prefix<V>(
    infos: Seq<ExtensionInfoView>,
    entries: Seq<(Seq<char>, V)>,
    k: int,
) -> bool {
    &&& 0 <= k <= entries.len()
    &&& forall|j: int| 0 <= j < k ==> has_name(infos, (#[trigger] entries[j]).0)
    &&& k < entries.len() ==> !has_name(infos, entries[k].0)
}

/// A way to write a value into a record that leaves the record's name alone.
pub open spec fn keeps_name<V>(write: spec_fn(ExtensionInfoView, V) -> ExtensionInfoView) -> bool {
    forall|info: ExtensionInfoView, v: V| (#[trigger] write(info, v)).name == info.name
}

/// Writing a state replaces the state of a record.
pub open spec fn write_state() -> spec_fn(ExtensionInfoView, ExtensionStateView) -> ExtensionInfoView {
    |info: ExtensionInfoView, state: ExtensionStateView| info.with_state(state)
}

/// Writing a layout replaces the layout of a record.
pub open spec fn write_layout() -> spec_fn(ExtensionInfoView, ExtensionLayout) -> ExtensionInfoView {
    |info: ExtensionInfoView, layout: ExtensionLayout| info.with_layout(layout)
}

/// The records after the values of `written` have been written into the
/// records of the extensions they name.
pub open spec fn with_written<V>(
    infos: Seq<ExtensionInfoView>,
    written: Map<Seq<char>, V>,
    write: spec_fn(ExtensionInfoView, V) -> ExtensionInfoView,
) -> Seq<ExtensionInfoView> {
    infos.map_values(
        |info: ExtensionInfoView|
            if written.contains_key(info.name) {
                write(info, written[info.name])
            } else {
                info
            },
    )
}

/// What applying a document's entries, in order, does to the registry. The
/// entries are written one by one until one names an extension that is not
/// registered: that one fails the whole call, and what was written before
/// it stays written.
pub open spec fn entries_applied<V>(
    entries: Seq<(Seq<char>, V)>,
    write: spec_fn(ExtensionInfoView, V) -> ExtensionInfoView,
    before: Seq<ExtensionInfoView>,
    after: Seq<ExtensionInfoView>,
    r: OmniverlayResult<()>,
) -> bool {
    exists|k: int|
        {
            &&& #[trigger] is_known_prefix(before, entries, k)
            &&& after == with_written(before, entries_map(entries.take(k)), write)
            &&& k == entries.len() ==> r is Ok
            &&& k < entries.len() ==> (r matches Err(e) && e@
                == OmniverlayErrorView::ExtensionNotFound(entries[k].0))
        }
}

/// Applying entries succeeds exactly when every entry names a registered extension.
pub proof fn lemma_applied_ok<V>(
    entries: Seq<(Seq<char>, V)>,
    write: spec_fn(ExtensionInfoView, V) -> ExtensionInfoView,
    before: Seq<ExtensionInfoView>,
    after: Seq<ExtensionInfoView>,
    r: OmniverlayResult<()>,
)
    requires
        entries_applied(entries, write, before, after, r),
    ensures
        r is Ok <==> forall|j: int|
            0 <= j < entries.len() ==> has_name(before, (#[trigger] entries[j]).0),
        r is Ok ==> after == with_written(before, entries_map(entries), write),
        r matches Err(e) ==> e@ is ExtensionNotFound,
{
    let k = choose|k: int|
        {
            &&& #[trigger] is_known_prefix(before, entries, k)
            &&& after == with_written(before, entries_map(entries.take(k)), write)
            &&& k == entries.len() ==> r is Ok
            &&& k < entries.len() ==> (r matches Err(e) && e@
                == OmniverlayErrorView::ExtensionNotFound(entries[k].0))
        };
    if k == entries.len() {
        assert(entries.take(k) =~= entries);
    } else {
        assert(!has_name(before, entries[k].0));
    }
}

/// The entries of a profile after it has taken in the registry: each record
/// in turn, where the entries do not yet name its extension, adds an entry
/// with the extension's state at the end. Entries that were there stay as
/// they are.
pub open spec fn absorbed_states(
    entries: Seq<(Seq<char>, ExtensionStateView)>,
    infos: Seq<ExtensionInfoView>,
) -> Seq<(Seq<char>, ExtensionStateView)>
    decreases infos.len(),
{
    if infos.len() == 0 {
        entries
    } else {
        let rest = absorbed_states(entries, infos.drop_last());
        let last = infos.last();
        if entries_map(rest).contains_key(last.name) {
            rest
        } else {
            rest.push((last.name, last.state))
        }
    }
}

/// After a profile has taken in the registry it names every registered
/// extension, and what it held before is still there unchanged.
pub proof fn lemma_absorbed_states(
    entries: Seq<(Seq<char>, ExtensionStateView)>,
    infos: Seq<ExtensionInfoView>,
)
    requires
        distinct_names(entries),
    ensures
        distinct_names(absorbed_states(entries, infos)),
        entries.len() <= absorbed_states(entries, infos).len(),
        absorbed_states(entries, infos).take(entries.len() as int) == entries,
        forall|n: Seq<char>|
            has_name(infos, n) ==> #[trigger] entries_map(absorbed_states(entries, infos)).contains_key(
                n,
            ),
        forall|n: Seq<char>|
            entries_map(absorbed_states(entries, infos)).contains_key(n) ==> has_name(infos, n)
                || #[trigger] entries_map(entries).contains_key(n),
        forall|n: Seq<char>| #[trigger]
            entries_map(entries).contains_key(n) ==> entries_map(
                absorbed_states(entries, infos),
            ).contains_key(n) && entries_map(absorbed_states(entries, infos))[n] == entries_map(
                entries,
            )[n],
    decreases infos.len(),
{
    let out = absorbed_states(entries, infos);
    if infos.len() == 0 {
        assert(out.take(entries.len() as int) =~= entries);
    } else {
        let shorter = infos.drop_last();
        let rest = absorbed_states(entries, shorter);
        let last = infos.last();
        lemma_absorbed_states(entries, shorter);
        if !entries_map(rest).contains_key(last.name) {
            lemma_push(rest, last.name, last.state);
        }
        assert(out.take(entries.len() as int) =~= rest.take(entries.len() as int));
        assert forall|n: Seq<char>| has_name(infos, n) implies #[trigger] entries_map(
            out,
        ).contains_key(n) by {
            let i = choose|i: int| 0 <= i < infos.len() && #[trigger] infos[i].name == n;
            if i < shorter.len() {
                assert(shorter[i].name == n);
                assert(has_name(shorter, n));
                assert(entries_map(rest).contains_key(n));
            }
        }
        assert forall|n: Seq<char>| entries_map(out).contains_key(n) implies has_name(infos, n)
            || #[trigger] entries_map(entries).contains_key(n) by {
            if entries_map(rest).contains_key(n) {
                if has_name(shorter, n) {
                    let i = choose|i: int| 0 <= i < shorter.len() && #[trigger] shorter[i].name == n;
                    assert(infos[i].name == n);
                }
            } else {
                assert(infos[infos.len() - 1].name == n);
            }
        }
    }
}

/// A named profile: for each extension it names, whether the extension is
/// enabled and how it is configured.
#[derive(Debug)]
pub struct OmniverlayProfile {
    pub name: String,
    pub extensions: NameMap<ExtensionState>,
}

impl OmniverlayProfile {
    /// The states by extension name.
    pub open spec fn states(&self) -> Map<Seq<char>, ExtensionStateView> {
        entries_map(state_entries(self.extensions))
    }
}

impl OmniverlayData for OmniverlayProfile {
    open spec fn doc_name(&self) -> Seq<char> {
        self.name@
    }

    open spec fn dir_name_of() -> Seq<char> {
        "profiles"@
    }

    /// The states are written in the order of the profile's entries.
    open spec fn applied(
        &self,
        before: Seq<ExtensionInfoView>,
        after: Seq<ExtensionInfoView>,
        r: OmniverlayResult<()>,
    ) -> bool {
        entries_applied(state_entries(self.extensions), write_state(), before, after, r)
    }

    /// Every registered extension that the profile does not name yet gets
    /// an entry with the state it has now.
    open spec fn reconciled(before: Self, after: Self, infos: Seq<ExtensionInfoView>) -> bool {
        &&& after.name == before.name
        &&& state_entries(after.extensions) == absorbed_states(
            state_entries(before.extensions),
            infos,
        )
    }

    proof fn lemma_reconciled_name(before: Self, after: Self, infos: Seq<ExtensionInfoView>) {
    }

    fn name(&self) -> (r: OmniverlayResult<String>) {
        Ok(self.name.clone())
    }

    fn dir_name() -> (r: String) {
        String::from_str("profiles")
    }

    open spec fn kind_of() -> Seq<char> {
        "Profile"@
    }

    fn kind() -> (r: String) {
        String::from_str("Profile")
    }

    open spec fn is_empty_named(doc: Self, name: Seq<char>) -> bool {
        doc.name@ == name && doc.extensions.entries() == Seq::<(Seq<char>, ExtensionState)>::empty()
    }

    fn named(name: String) -> (doc: Self) {
        OmniverlayProfile { name, extensions: NameMap::new() }
    }

    open spec fn json_of(&self) -> JsonValueView {
        encode_profile(self.name@, states_view(self.extensions@))
    }

    open spec fn has_shape(json: JsonValueView) -> bool {
        decode_profile(json) is Some
    }

    open spec fn read_from(json: JsonValueView, doc: Self) -> bool {
        decode_profile(json) == Some((doc.name@, states_view(doc.extensions@)))
    }

    open spec fn same_content(&self, other: &Self) -> bool {
        self.name@ == other.name@ && states_view(self.extensions@) == states_view(
            other.extensions@,
        )
    }

    proof fn lemma_json_round_trip(doc: Self, back: Self) {
        lemma_profile_round_trip(doc.name@, states_view(doc.extensions@));
    }

    fn to_json(&self) -> (r: OmniverlayResult<JsonValue>) {
        Ok(encode_profile_document(&self.name, &self.extensions))
    }

    fn from_json(json: &JsonValue) -> (r: OmniverlayResult<Self>) {
        match decode_profile_document(json) {
            Ok((name, extensions)) => Ok(OmniverlayProfile { name, extensions }),
            Err(e) => Err(e),
        }
    }

    fn apply_to_extensions<E: Extension>(&self, manager: &mut ExtensionManager<E>) -> (r:
        OmniverlayResult<()>) {
        let ghost entries = state_entries(self.extensions);
        let ghost before = manager.infos();
        proof {
            use_type_invariant(&self.extensions);
            use_type_invariant(&*manager);
            assert(with_written(before, entries_map(entries.take(0)), write_state()) =~= before);
            assert forall|a: int, b: int| 0 <= a < b < entries.len() implies #[trigger] entries[a].0
                != #[trigger] entries[b].0 by {
                assert(self.extensions.entries()[a].0 != self.extensions.entries()[b].0);
            }
        }
        let mut i: usize = 0;
        while i < self.extensions.len()
            invariant
                0 <= i <= entries.len(),
                entries == state_entries(self.extensions),
                self.extensions.wf(),
                manager.wf(),
                manager.held() == old(manager).held(),
                before == old(manager).infos(),
                distinct_infos(before),
                distinct_names(entries),
                forall|j: int| 0 <= j < i ==> has_name(before, (#[trigger] entries[j]).0),
                manager.infos() == with_written(
                    before,
                    entries_map(entries.take(i as int)),
                    write_state(),
                ),
            decreases entries.len() - i,
        {
            let name = self.extensions.name_at(i);
            let state = self.extensions.value_at(i).clone();
            let ghost current = manager.infos();
            let r = manager.update_extension_state(name.as_str(), state);
            proof {
                use_type_invariant(&*manager);
                assert(entries[i as int].0 == name@);
                assert(entries[i as int].1 == state@);
                lemma_has_name_kept(before, entries_map(entries.take(i as int)), write_state(), name@);
            }
            match r {
                Ok(()) => {
                    proof {
                        lemma_written_step(before, entries, write_state(), i as int);
                    }
                },
                Err(e) => {
                    assert(is_known_prefix(before, entries, i as int));
                    return Err(e);
                },
            }
            i += 1;
        }
        proof {
            assert(is_known_prefix(before, entries, i as int));
        }
        Ok(())
    }

    fn on_load<E: Extension>(&mut self, manager: &ExtensionManager<E>) -> (r: OmniverlayResult<()>) {
        let list = match manager.list_extensions() {
            Ok(list) => list,
            Err(e) => {
                return Err(e);
            },
        };
        let ghost infos = manager.infos();
        let ghost start = state_entries(self.extensions);
        proof {
            assert(infos.take(0) =~= Seq::<ExtensionInfoView>::empty());
        }
        let mut i: usize = 0;
        while i < list.len()
            invariant
                0 <= i <= list.len(),
                records_view(list@) == infos,
                self.name == old(self).name,
                start == state_entries(old(self).extensions),
                state_entries(self.extensions) == absorbed_states(start, infos.take(i as int)),
            decreases list.len() - i,
        {
            let ghost current = state_entries(self.extensions);
            let ghost previous = self.extensions;
            proof {
                assert(infos.take(i + 1).drop_last() =~= infos.take(i as int));
                assert(infos.take(i + 1).last() == infos[i as int]);
                assert(list@[i as int]@ == infos[i as int]);
                lemma_state_names(self.extensions, infos[i as int].name);
            }
            if !self.extensions.contains_key(list[i].name.as_str()) {
                let state = list[i].state.clone();
                self.extensions.insert(list[i].name.clone(), state);
                assert(state_entries(self.extensions) =~= current.push(
                    (infos[i as int].name, infos[i as int].state),
                ));
            }
            i += 1;
        }
        proof {
            assert(infos.take(list.len() as int) =~= infos);
        }
        Ok(())
    }
}

impl Default for OmniverlayProfile {
    /// The profile called "default", which names no extension.
    fn default() -> (p: Self)
        ensures
            p.name@ == "default"@,
            p.extensions.entries() == Seq::<(Seq<char>, ExtensionState)>::empty(),
    {
        Self { name: String::from_str("default"), extensions: NameMap::new() }
    }
}

impl Clone for OmniverlayProfile {
    fn clone(&self) -> (r: Self)
        ensures
            r.name@ == self.name@,
            state_entries(r.extensions) == state_entries(self.extensions),
    {
        let extensions = self.extensions.clone();
        assert(state_entries(extensions) =~= state_entries(self.extensions));
        OmniverlayProfile { name: self.name.clone(), extensions }
    }
}

/// A map of states names what its entries name, whether the states are
/// taken as they are or by their views.
pub proof fn lemma_state_names(m: NameMap<ExtensionState>, name: Seq<char>)
    ensures
        entries_map(state_entries(m)).contains_key(name) == m@.contains_key(name),
{
    lemma_contains(m.entries(), name);
    lemma_contains(state_entries(m), name);
    if m@.contains_key(name) {
        let i = choose|i: int| 0 <= i < m.entries().len() && #[trigger] m.entries()[i].0 == name;
        assert(state_entries(m)[i].0 == name);
    }
    if entries_map(state_entries(m)).contains_key(name) {
        let i = choose|i: int|
            0 <= i < state_entries(m).len() && #[trigger] state_entries(m)[i].0 == name;
        assert(m.entries()[i].0 == name);
    }
}

/// What a stored layout becomes when it takes in the layout an extension
/// has now: the live width and height, the stored position.
pub open spec fn merged_layout(stored: ExtensionLayout, live: ExtensionLayout) -> ExtensionLayout {
    ExtensionLayout { width: live.width, height: live.height, x: stored.x, y: stored.y }
}

/// The place of an entry of `entries` that carries `name`.
pub open spec fn entry_index<V>(entries: Seq<(Seq<char>, V)>, name: Seq<char>) -> int {
    choose|i: int| 0 <= i < entries.len() && #[trigger] entries[i].0 == name
}

/// The entries of a layout document after it has taken in the registry:
/// each record that has a layout, in turn, either adds an entry with that
/// layout at the end, where the entries do not yet name its extension, or
/// gives the entry of its extension its width and height. A record without
/// a layout changes nothing.
pub open spec fn absorbed_layouts(
    entries: Seq<(Seq<char>, ExtensionLayout)>,
    infos: Seq<ExtensionInfoView>,
) -> Seq<(Seq<char>, ExtensionLayout)>
    decreases infos.len(),
{
    if infos.len() == 0 {
        entries
    } else {
        let rest = absorbed_layouts(entries, infos.drop_last());
        let last = infos.last();
        match last.layout {
            None => rest,
            Some(live) => if entries_map(rest).contains_key(last.name) {
                let at = entry_index(rest, last.name);
                rest.update(at, (last.name, merged_layout(rest[at].1, live)))
            } else {
                rest.push((last.name, live))
            },
        }
    }
}

/// Some record of `infos` carries `name` and has a layout.
pub open spec fn has_layout(infos: Seq<ExtensionInfoView>, name: Seq<char>) -> bool {
    exists|i: int| 0 <= i < infos.len() && (#[trigger] infos[i]).name == name && infos[i].layout is Some
}

/// After a layout document has taken in the registry it names every
/// registered extension that has a layout, besides the names it held before.
pub proof fn lemma_absorbed_layouts(
    entries: Seq<(Seq<char>, ExtensionLayout)>,
    infos: Seq<ExtensionInfoView>,
)
    requires
        distinct_names(entries),
    ensures
        distinct_names(absorbed_layouts(entries, infos)),
        entries.len() <= absorbed_layouts(entries, infos).len(),
        forall|j: int|
            0 <= j < entries.len() ==> (#[trigger] absorbed_layouts(entries, infos)[j]).0
                == entries[j].0,
        forall|n: Seq<char>|
            has_layout(infos, n) ==> #[trigger] entries_map(
                absorbed_layouts(entries, infos),
            ).contains_key(n),
        forall|n: Seq<char>|
            entries_map(absorbed_layouts(entries, infos)).contains_key(n) ==> has_layout(infos, n)
                || #[trigger] entries_map(entries).contains_key(n),
    decreases infos.len(),
{
    let out = absorbed_layouts(entries, infos);
    if infos.len() > 0 {
        let shorter = infos.drop_last();
        let rest = absorbed_layouts(entries, shorter);
        let last = infos.last();
        lemma_absorbed_layouts(entries, shorter);
        match last.layout {
            None => {},
            Some(live) => {
                if entries_map(rest).contains_key(last.name) {
                    let at = entry_index(rest, last.name);
                    lemma_update(rest, at, merged_layout(rest[at].1, live));
                } else {
                    lemma_push(rest, last.name, live);
                }
            },
        }
        assert forall|n: Seq<char>| has_layout(infos, n) implies #[trigger] entries_map(
            out,
        ).contains_key(n) by {
            let i = choose|i: int|
                0 <= i < infos.len() && (#[trigger] infos[i]).name == n && infos[i].layout is Some;
            if i < shorter.len() {
                assert(shorter[i].name == n);
                assert(has_layout(shorter, n));
                assert(entries_map(rest).contains_key(n));
            }
        }
        assert forall|n: Seq<char>| entries_map(out).contains_key(n) implies has_layout(infos, n)
            || #[trigger] entries_map(entries).contains_key(n) by {
            if entries_map(rest).contains_key(n) {
                if has_layout(shorter, n) {
                    let i = choose|i: int|
                        0 <= i < shorter.len() && (#[trigger] shorter[i]).name == n
                            && shorter[i].layout is Some;
                    assert(infos[i].name == n);
                }
            } else {
                assert(infos[infos.len() - 1].name == n);
            }
        }
    }
}

/// A named layout document: for each extension it names, where the
/// extension is drawn and how large.
#[derive(Debug)]
pub struct OmniverlayLayout {
    pub name: String,
    pub extensions: NameMap<ExtensionLayout>,
}

impl OmniverlayLayout {
    /// The layouts by extension name.
    pub open spec fn layouts(&self) -> Map<Seq<char>, ExtensionLayout> {
        self.extensions@
    }
}

impl OmniverlayData for OmniverlayLayout {
    open spec fn doc_name(&self) -> Seq<char> {
        self.name@
    }

    open spec fn dir_name_of() -> Seq<char> {
        "layouts"@
    }

    /// The layouts are written in the order of the document's entries.
    open spec fn applied(
        &self,
        before: Seq<ExtensionInfoView>,
        after: Seq<ExtensionInfoView>,
        r: OmniverlayResult<()>,
    ) -> bool {
        entries_applied(self.extensions.entries(), write_layout(), before, after, r)
    }

    /// Every registered extension that has a layout gets an entry, and an
    /// entry that was there takes the extension's width and height and
    /// keeps its own position.
    open spec fn reconciled(before: Self, after: Self, infos: Seq<ExtensionInfoView>) -> bool {
        &&& after.name == before.name
        &&& after.extensions.entries() == absorbed_layouts(before.extensions.entries(), infos)
    }

    proof fn lemma_reconciled_name(before: Self, after: Self, infos: Seq<ExtensionInfoView>) {
    }

    fn name(&self) -> (r: OmniverlayResult<String>) {
        Ok(self.name.clone())
    }

    fn dir_name() -> (r: String) {
        String::from_str("layouts")
    }

    open spec fn kind_of() -> Seq<char> {
        "Layout"@
    }

    fn kind() -> (r: String) {
        String::from_str("Layout")
    }

    open spec fn is_empty_named(doc: Self, name: Seq<char>) -> bool {
        doc.name@ == name && doc.extensions.entries() == Seq::<(Seq<char>, ExtensionLayout)>::empty()
    }

    fn named(name: String) -> (doc: Self) {
        OmniverlayLayout { name, extensions: NameMap::new() }
    }

    open spec fn json_of(&self) -> JsonValueView {
        encode_layouts(self.name@, self.extensions@)
    }

    open spec fn has_shape(json: JsonValueView) -> bool {
        decode_layouts(json) is Some
    }

    open spec fn read_from(json: JsonValueView, doc: Self) -> bool {
        decode_layouts(json) == Some((doc.name@, doc.extensions@))
    }

    open spec fn same_content(&self, other: &Self) -> bool {
        self.name@ == other.name@ && self.extensions@ == other.extensions@
    }

    proof fn lemma_json_round_trip(doc: Self, back: Self) {
        lemma_layouts_round_trip(doc.name@, doc.extensions@);
    }

    fn to_json(&self) -> (r: OmniverlayResult<JsonValue>) {
        Ok(encode_layout_document(&self.name, &self.extensions))
    }

    fn from_json(json: &JsonValue) -> (r: OmniverlayResult<Self>) {
        match decode_layout_document(json) {
            Ok((name, extensions)) => Ok(OmniverlayLayout { name, extensions }),
            Err(e) => Err(e),
        }
    }

    fn apply_to_extensions<E: Extension>(&self, manager: &mut ExtensionManager<E>) -> (r:
        OmniverlayResult<()>) {
        let ghost entries = self.extensions.entries();
        let ghost before = manager.infos();
        proof {
            use_type_invariant(&self.extensions);
            use_type_invariant(&*manager);
            assert(with_written(before, entries_map(entries.take(0)), write_layout()) =~= before);
        }
        let mut i: usize = 0;
        while i < self.extensions.len()
            invariant
                0 <= i <= entries.len(),
                entries == self.extensions.entries(),
                self.extensions.wf(),
                manager.wf(),
                manager.held() == old(manager).held(),
                before == old(manager).infos(),
                distinct_infos(before),
                distinct_names(entries),
                forall|j: int| 0 <= j < i ==> has_name(before, (#[trigger] entries[j]).0),
                manager.infos() == with_written(
                    before,
                    entries_map(entries.take(i as int)),
                    write_layout(),
                ),
            decreases entries.len() - i,
        {
            let name = self.extensions.name_at(i);
            let layout = *self.extensions.value_at(i);
            let r = manager.update_extension_layout(name.as_str(), layout);
            proof {
                use_type_invariant(&*manager);
                lemma_has_name_kept(before, entries_map(entries.take(i as int)), write_layout(), name@);
            }
            match r {
                Ok(()) => {
                    proof {
                        lemma_written_step(before, entries, write_layout(), i as int);
                    }
                },
                Err(e) => {
                    assert(is_known_prefix(before, entries, i as int));
                    return Err(e);
                },
            }
            i += 1;
        }
        proof {
            assert(is_known_prefix(before, entries, i as int));
        }
        Ok(())
    }

    fn on_load<E: Extension>(&mut self, manager: &ExtensionManager<E>) -> (r: OmniverlayResult<()>) {
        let list = match manager.list_extensions() {
            Ok(list) => list,
            Err(e) => {
                return Err(e);
            },
        };
        let ghost infos = manager.infos();
        let ghost start = self.extensions.entries();
        proof {
            assert(infos.take(0) =~= Seq::<ExtensionInfoView>::empty());
        }
        let mut i: usize = 0;
        while i < list.len()
            invariant
                0 <= i <= list.len(),
                records_view(list@) == infos,
                self.name == old(self).name,
                start == old(self).extensions.entries(),
                self.extensions.entries() == absorbed_layouts(start, infos.take(i as int)),
            decreases list.len() - i,
        {
            let ghost current = self.extensions.entries();
            proof {
                use_type_invariant(&self.extensions);
                assert(infos.take(i + 1).drop_last() =~= infos.take(i as int));
                assert(infos.take(i + 1).last() == infos[i as int]);
                assert(list@[i as int]@ == infos[i as int]);
            }
            match list[i].layout {
                Some(layout) => {
                    let merged = match self.extensions.get(list[i].name.as_str()) {
                        Some(stored) => ExtensionLayout {
                            width: layout.width,
                            height: layout.height,
                            x: stored.x,
                            y: stored.y,
                        },
                        None => layout,
                    };
                    self.extensions.insert(list[i].name.clone(), merged);
                    proof {
                        let name = infos[i as int].name;
                        if entries_map(current).contains_key(name) {
                            let at = entry_index(current, name);
                            lemma_entry_at(current, at);
                            let j = choose|j: int|
                                0 <= j < current.len() && #[trigger] current[j].0 == name
                                    && self.extensions.entries() == current.update(
                                    j,
                                    (name, merged),
                                );
                            assert(j == at) by {
                                if j < at {
                                    assert(current[j].0 != current[at].0);
                                } else if at < j {
                                    assert(current[at].0 != current[j].0);
                                }
                            }
                        }
                    }
                },
                None => {},
            }
            i += 1;
        }
        proof {
            assert(infos.take(list.len() as int) =~= infos);
        }
        Ok(())
    }
}

impl Default for OmniverlayLayout {
    /// The layout document called "default", which names no extension.
    fn default() -> (l: Self)
        ensures
            l.name@ == "default"@,
            l.extensions.entries() == Seq::<(Seq<char>, ExtensionLayout)>::empty(),
    {
        Self { name: String::from_str("default"), extensions: NameMap::new() }
    }
}

impl Clone for OmniverlayLayout {
    fn clone(&self) -> (r: Self)
        ensures
            r.name@ == self.name@,
            r.extensions.entries() == self.extensions.entries(),
    {
        let extensions = self.extensions.clone();
        assert(extensions.entries() =~= self.extensions.entries());
        OmniverlayLayout { name: self.name.clone(), extensions }
    }
}

/// What loading the document called `name` returns, given what the reader
/// found in its file: a failure of the reader as it is, `DataNotFound` where
/// there is no such file, a failure where the file does not hold a document,
/// else the document after it has taken in the registry.
pub open spec fn load_outcome<T: OmniverlayData>(
    name: Seq<char>,
    found: OmniverlayResult<Option<JsonValue>>,
    infos: Seq<ExtensionInfoView>,
    r: OmniverlayResult<Option<T>>,
) -> bool {
    match found {
        Err(e) => r == Err::<Option<T>, OmniverlayError>(e),
        Ok(None) => r matches Err(e) && e@ == OmniverlayErrorView::DataNotFound(name),
        Ok(Some(json)) => if T::has_shape(json@) {
            r matches Ok(Some(loaded)) && exists|doc: T| #[trigger]
                T::read_from(json@, doc) && T::reconciled(doc, loaded, infos)
        } else {
            r matches Err(e) && e@ == shape_error()
        },
    }
}

/// What saving `data` does to the registry, given how writing its file
/// ended: where the file could not be written the registry is left alone,
/// else the document is applied.
pub open spec fn save_outcome<T: OmniverlayData>(
    data: T,
    written: OmniverlayResult<()>,
    before: Seq<ExtensionInfoView>,
    after: Seq<ExtensionInfoView>,
    r: OmniverlayResult<()>,
) -> bool {
    match written {
        Err(e) => r == Err::<(), OmniverlayError>(e) && after == before,
        Ok(()) => data.applied(before, after, r),
    }
}

/// The name of a new document: the one given or, where none is given, the
/// kind and one more than the number of documents that are there.
pub open spec fn new_name_of<T: OmniverlayData>(name: Option<String>, used: u32) -> Seq<char> {
    match name {
        Some(name) => name@,
        None => auto_name_of(T::kind_of(), used as nat),
    }
}

/// What saving `data` through `write` does: the JSON of the document is
/// handed to the writer under the document's file name, and the outcome of
/// the writer decides.
pub open spec fn saved<T: OmniverlayData, W: FnOnce(&str, &JsonValue) -> OmniverlayResult<()>>(
    data: T,
    write: W,
    before: Seq<ExtensionInfoView>,
    after: Seq<ExtensionInfoView>,
    r: OmniverlayResult<()>,
) -> bool {
    exists|target: &str, json: JsonValue, written: OmniverlayResult<()>|
        target@ == file_name_of(data.doc_name()) && json@ == data.json_of() && #[trigger] write.ensures(
            (target, &json),
            written,
        ) && save_outcome(data, written, before, after, r)
}

/// What switching to the document called `name` does, through `read` and
/// `write`. A failure of the reader, and a file that is not there, fail the
/// switch and leave the current document and the registry as they were.
/// Else what was read takes in the registry, becomes current and is saved.
pub open spec fn switch_outcome<
    T: OmniverlayData,
    R: FnOnce(&str) -> OmniverlayResult<Option<JsonValue>>,
    W: FnOnce(&str, &JsonValue) -> OmniverlayResult<()>,
>(
    name: Seq<char>,
    read: R,
    write: W,
    old_data: T,
    new_data: T,
    before: Seq<ExtensionInfoView>,
    after: Seq<ExtensionInfoView>,
    r: OmniverlayResult<()>,
) -> bool {
    exists|file: &str, found: OmniverlayResult<Option<JsonValue>>|
        file@ == file_name_of(name) && #[trigger] read.ensures((file,), found) && match found {
            Err(e) => r == Err::<(), OmniverlayError>(e) && new_data == old_data && after == before,
            Ok(None) => (r matches Err(e) && e@ == OmniverlayErrorView::DataNotFound(name))
                && new_data == old_data && after == before,
            Ok(Some(json)) => if T::has_shape(json@) {
                (exists|doc: T| #[trigger]
                    T::read_from(json@, doc) && T::reconciled(doc, new_data, before))
                    && saved(new_data, write, before, after, r)
            } else {
                (r matches Err(e) && e@ == shape_error()) && new_data == old_data && after == before
            },
        }
}

/// After a switch to the document called `name` has succeeded, where the
/// file of that name held a document of that name: the current document
/// carries the name, and its JSON was written, successfully, to the file of
/// that name; what is read back from that JSON is the current document.
pub proof fn lemma_switch_then_read<
    T: OmniverlayData,
    R: FnOnce(&str) -> OmniverlayResult<Option<JsonValue>>,
    W: FnOnce(&str, &JsonValue) -> OmniverlayResult<()>,
>(
    name: Seq<char>,
    read: R,
    write: W,
    old_data: T,
    new_data: T,
    before: Seq<ExtensionInfoView>,
    after: Seq<ExtensionInfoView>,
    r: OmniverlayResult<()>,
)
    requires
        switch_outcome(name, read, write, old_data, new_data, before, after, r),
        r is Ok,
        forall|file: &str, json: JsonValue, doc: T| #[trigger]
            read.ensures((file,), Ok::<Option<JsonValue>, OmniverlayError>(Some(json)))
                && #[trigger] T::read_from(json@, doc) ==> doc.doc_name() == name,
    ensures
        new_data.doc_name() == name,
        exists|target: &str, json: JsonValue, written: OmniverlayResult<()>| #[trigger]
            write.ensures((target, &json), written) && written is Ok && target@ == file_name_of(
                name,
            ) && json@ == new_data.json_of(),
        T::has_shape(new_data.json_of()),
        forall|back: T| #[trigger]
            T::read_from(new_data.json_of(), back) ==> back.same_content(&new_data),
{
    let (file, found) = choose|file: &str, found: OmniverlayResult<Option<JsonValue>>|
        file@ == file_name_of(name) && #[trigger] read.ensures((file,), found) && match found {
            Err(e) => r == Err::<(), OmniverlayError>(e) && new_data == old_data && after == before,
            Ok(None) => (r matches Err(e) && e@ == OmniverlayErrorView::DataNotFound(name))
                && new_data == old_data && after == before,
            Ok(Some(json)) => if T::has_shape(json@) {
                (exists|doc: T| #[trigger]
                    T::read_from(json@, doc) && T::reconciled(doc, new_data, before))
                    && saved(new_data, write, before, after, r)
            } else {
                (r matches Err(e) && e@ == shape_error()) && new_data == old_data && after == before
            },
        };
    assert(found is Ok && found->Ok_0 is Some);
    let json = found->Ok_0->Some_0;
    assert(found == Ok::<Option<JsonValue>, OmniverlayError>(Some(json)));
    let doc = choose|doc: T| #[trigger]
        T::read_from(json@, doc) && T::reconciled(doc, new_data, before);
    T::lemma_reconciled_name(doc, new_data, before);
    assert(saved(new_data, write, before, after, r));
    let (target, out, written) = choose|target: &str, out: JsonValue, written: OmniverlayResult<()>|
        target@ == file_name_of(new_data.doc_name()) && out@ == new_data.json_of()
            && #[trigger] write.ensures((target, &out), written) && save_outcome(
            new_data,
            written,
            before,
            after,
            r,
        );
    assert(written is Ok);
    assert forall|back: T| #[trigger] T::read_from(new_data.json_of(), back) implies back.same_content(
        &new_data,
    ) by {
        T::lemma_json_round_trip(new_data, back);
    }
    T::lemma_json_round_trip(new_data, new_data);
}

/// Reading and writing the files of documents. The file system itself is
/// reached through the reader and the writer that the caller hands in.
pub trait DataLoader<T: OmniverlayData> {
    /// Loads the document called `name`: asks `read` for the file
    /// `<name>.json`, and lets what was read take in the registry.
    fn load_data<E: Extension, R: FnOnce(&str) -> OmniverlayResult<Option<JsonValue>>>(
        name: String,
        manager: &ExtensionManager<E>,
        read: R,
    ) -> (r: OmniverlayResult<Option<T>>)
        requires
            forall|file: &str| #[trigger] read.requires((file,)),
        ensures
            exists|file: &str, found: OmniverlayResult<Option<JsonValue>>|
                file@ == file_name_of(name@) && #[trigger] read.ensures((file,), found)
                    && load_outcome(name@, found, manager.infos(), r),
    ;

    /// Hands the JSON of `data` to `write` under the file name `<name>.json`.
    fn save_data<W: FnOnce(&str, &JsonValue) -> OmniverlayResult<()>>(data: &T, write: W) -> (r:
        OmniverlayResult<()>)
        requires
            forall|file: &str, json: &JsonValue| #[trigger] write.requires((file, json)),
        ensures
            exists|file: &str, json: JsonValue|
                file@ == file_name_of(data.doc_name()) && json@ == data.json_of()
                    && #[trigger] write.ensures((file, &json), r),
    ;

    /// The names of the documents whose files are called `file_names`: of
    /// each file name, its stem.
    fn list_datas(file_names: &Vec<String>) -> (r: OmniverlayResult<Vec<String>>)
        ensures
            r matches Ok(names) && names@.len() == file_names@.len() && forall|i: int|
                0 <= i < names@.len() ==> (#[trigger] names@[i])@ == file_stem_of(file_names@[i]@),
    ;
}

/// A file name without its extension: what stands before the last dot. A
/// name without a dot, or whose only dot is its first character, is its own stem.
pub open spec fn file_stem_of(file_name: Seq<char>) -> Seq<char> {
    if exists|i: int| 0 < i < file_name.len() && file_name[i] == '.' {
        file_name.take(last_dot(file_name))
    } else {
        file_name
    }
}

/// The place of the last dot after the first character.
pub open spec fn last_dot(file_name: Seq<char>) -> int {
    choose|i: int|
        0 < i < file_name.len() && file_name[i] == '.' && forall|j: int|
            i < j < file_name.len() ==> file_name[j] != '.'
}

/// The stem of a file name.
pub fn file_stem(file_name: &str) -> (r: String)
    ensures
        r@ == file_stem_of(file_name@),
{
    let n = file_name.unicode_len();
    let mut i: usize = n;
    while i > 1
        invariant
            n == file_name@.len(),
            i <= n,
            forall|j: int| i <= j < n && 0 < j ==> file_name@[j] != '.',
        decreases i,
    {
        i -= 1;
        if file_name.get_char(i) == '.' {
            proof {
                let d = last_dot(file_name@);
                assert(0 < i < file_name@.len() && file_name@[i as int] == '.');
                if d < i {
                    assert(file_name@[i as int] != '.');
                }
            }
            return String::from_str(file_name.substring_char(0, i));
        }
    }
    String::from_str(file_name)
}

impl<T: OmniverlayData> DataLoader<T> for T {
    fn load_data<E: Extension, R: FnOnce(&str) -> OmniverlayResult<Option<JsonValue>>>(
        name: String,
        manager: &ExtensionManager<E>,
        read: R,
    ) -> (r: OmniverlayResult<Option<T>>) {
        let file = name.clone().concat(".json");
        let found = read(file.as_str());
        match found {
            Err(e) => Err(e),
            Ok(None) => Err(OmniverlayError::DataNotFound(name)),
            Ok(Some(json)) => {
                let mut data = match T::from_json(&json) {
                    Ok(data) => data,
                    Err(e) => {
                        return Err(e);
                    },
                };
                match data.on_load(manager) {
                    Ok(()) => Ok(Some(data)),
                    Err(e) => Err(e),
                }
            },
        }
    }

    fn save_data<W: FnOnce(&str, &JsonValue) -> OmniverlayResult<()>>(data: &T, write: W) -> (r:
        OmniverlayResult<()>) {
        let name = match data.name() {
            Ok(name) => name,
            Err(e) => {
                return Err(e);
            },
        };
        let file = name.concat(".json");
        let json = match data.to_json() {
            Ok(json) => json,
            Err(e) => {
                return Err(e);
            },
        };
        write(file.as_str(), &json)
    }

    fn list_datas(file_names: &Vec<String>) -> (r: OmniverlayResult<Vec<String>>) {
        let mut datas: Vec<String> = Vec::new();
        let mut i: usize = 0;
        while i < file_names.len()
            invariant
                0 <= i <= file_names.len(),
                datas.len() == i,
                forall|j: int| 0 <= j < i ==> (#[trigger] datas@[j])@ == file_stem_of(file_names@[j]@),
            decreases file_names.len() - i,
        {
            datas.push(file_stem(file_names[i].as_str()));
            i += 1;
        }
        Ok(datas)
    }
}

/// Holds the document that is current, and switches and saves it.
pub struct ExtensionDataManager<T: OmniverlayData> {
    pub data: T,
}

impl<T: OmniverlayData + Default> ExtensionDataManager<T> {
    /// A manager whose current document is the default one.
    pub fn new() -> (m: Self)
        ensures
            call_ensures(T::default, (), m.data),
    {
        Self { data: T::default() }
    }
}

impl<T: OmniverlayData> ExtensionDataManager<T> {
    /// Makes the document called `name` current: loads it, puts it in the
    /// place of the current document, and saves it. A load that fails leaves
    /// everything as it was.
    pub fn switch_data<
        E: Extension,
        R: FnOnce(&str) -> OmniverlayResult<Option<JsonValue>>,
        W: FnOnce(&str, &JsonValue) -> OmniverlayResult<()>,
    >(&mut self, name: String, manager: &mut ExtensionManager<E>, read: R, write: W) -> (r:
        OmniverlayResult<()>)
        requires
            forall|file: &str| #[trigger] read.requires((file,)),
            forall|file: &str, json: &JsonValue| #[trigger] write.requires((file, json)),
        ensures
            final(manager).held() == old(manager).held(),
            switch_outcome(
                name@,
                read,
                write,
                old(self).data,
                final(self).data,
                old(manager).infos(),
                final(manager).infos(),
                r,
            ),
    {
        match T::load_data(name, manager, read) {
            Ok(Some(loaded_data)) => {
                self.data = loaded_data;
            },
            Ok(None) => {},
            Err(e) => {
                return Err(e);
            },
        }
        self.save_data(manager, write)
    }

    /// Saves the current document: first hands it to `write`, and only where
    /// that succeeded applies it to the registry.
    pub fn save_data<E: Extension, W: FnOnce(&str, &JsonValue) -> OmniverlayResult<()>>(
        &self,
        manager: &mut ExtensionManager<E>,
        write: W,
    ) -> (r: OmniverlayResult<()>)
        requires
            forall|file: &str, json: &JsonValue| #[trigger] write.requires((file, json)),
        ensures
            final(manager).held() == old(manager).held(),
            saved(self.data, write, old(manager).infos(), final(manager).infos(), r),
    {
        match T::save_data(&self.data, write) {
            Ok(()) => self.data.apply_to_extensions(manager),
            Err(e) => Err(e),
        }
    }

    /// Makes a new document current: one called `name` or, where no name
    /// is given, one named after its kind and the number of documents that
    /// are there already. The new document names no extension, takes in the
    /// registry, and is saved.
    pub fn new_data<E: Extension, W: FnOnce(&str, &JsonValue) -> OmniverlayResult<()>>(
        &mut self,
        name: Option<String>,
        used: u32,
        manager: &mut ExtensionManager<E>,
        write: W,
    ) -> (r: OmniverlayResult<()>)
        requires
            forall|file: &str, json: &JsonValue| #[trigger] write.requires((file, json)),
        ensures
            final(manager).held() == old(manager).held(),
            exists|fresh: T| #[trigger]
                T::is_empty_named(fresh, new_name_of::<T>(name, used)) && T::reconciled(
                    fresh,
                    final(self).data,
                    old(manager).infos(),
                ),
            saved(final(self).data, write, old(manager).infos(), final(manager).infos(), r),
    {
        let ghost asked = new_name_of::<T>(name, used);
        let chosen = match name {
            Some(name) => name,
            None => auto_name(T::kind().as_str(), used),
        };
        let mut data = T::named(chosen);
        let ghost fresh = data;
        match data.on_load(manager) {
            Ok(()) => {},
            Err(e) => {
                return Err(e);
            },
        }
        self.data = data;
        assert(T::is_empty_named(fresh, asked) && T::reconciled(
            fresh,
            self.data,
            old(manager).infos(),
        ));
        self.save_data(manager, write)
    }

    /// The current document.
    pub fn get_current(&self) -> (r: OmniverlayResult<&T>)
        ensures
            r matches Ok(data) && *data == self.data,
    {
        Ok(&self.data)
    }
}

/// After a profile has taken in the registry, it holds an entry for every
/// registered extension, and what it held before it still holds.
pub proof fn lemma_profile_names_every_extension(
    before: OmniverlayProfile,
    after: OmniverlayProfile,
    infos: Seq<ExtensionInfoView>,
)
    requires
        before.extensions.wf(),
        OmniverlayProfile::reconciled(before, after, infos),
    ensures
        forall|n: Seq<char>| has_name(infos, n) ==> #[trigger] after.states().contains_key(n),
        forall|n: Seq<char>| #[trigger]
            before.states().contains_key(n) ==> after.states().contains_key(n) && after.states()[n]
                == before.states()[n],
{
    let entries = state_entries(before.extensions);
    assert forall|a: int, b: int| 0 <= a < b < entries.len() implies #[trigger] entries[a].0
        != #[trigger] entries[b].0 by {
        assert(before.extensions.entries()[a].0 != before.extensions.entries()[b].0);
    }
    lemma_absorbed_states(entries, infos);
}

/// After a layout document has taken in the registry, it holds an entry
/// for every registered extension that has a layout.
pub proof fn lemma_layout_names_every_extension(
    before: OmniverlayLayout,
    after: OmniverlayLayout,
    infos: Seq<ExtensionInfoView>,
)
    requires
        before.extensions.wf(),
        OmniverlayLayout::reconciled(before, after, infos),
    ensures
        forall|n: Seq<char>| has_layout(infos, n) ==> #[trigger] after.layouts().contains_key(n),
        forall|n: Seq<char>| #[trigger]
            before.layouts().contains_key(n) ==> after.layouts().contains_key(n),
{
    lemma_absorbed_layouts(before.extensions.entries(), infos);
    assert forall|n: Seq<char>| #[trigger]
        before.layouts().contains_key(n) implies after.layouts().contains_key(n) by {
        lemma_contains(before.extensions.entries(), n);
        let j = choose|j: int|
            0 <= j < before.extensions.entries().len() && #[trigger] before.extensions.entries()[j].0
                == n;
        assert(after.extensions.entries()[j].0 == n);
        lemma_contains(after.extensions.entries(), n);
    }
}

/// Applying a profile that names an extension that is not registered
/// fails with `ExtensionNotFound`.
pub proof fn lemma_unknown_state_name_fails(
    doc: OmniverlayProfile,
    before: Seq<ExtensionInfoView>,
    after: Seq<ExtensionInfoView>,
    r: OmniverlayResult<()>,
)
    requires
        doc.applied(before, after, r),
        exists|n: Seq<char>| #[trigger] doc.states().contains_key(n) && !has_name(before, n),
    ensures
        r matches Err(e) && e@ is ExtensionNotFound,
{
    let n = choose|n: Seq<char>| #[trigger] doc.states().contains_key(n) && !has_name(before, n);
    let entries = state_entries(doc.extensions);
    lemma_contains(entries, n);
    let j = choose|j: int| 0 <= j < entries.len() && #[trigger] entries[j].0 == n;
    assert(!has_name(before, entries[j].0));
    lemma_applied_ok(entries, write_state(), before, after, r);
}

/// Applying a layout document that names an extension that is not
/// registered fails with `ExtensionNotFound`.
pub proof fn lemma_unknown_layout_name_fails(
    doc: OmniverlayLayout,
    before: Seq<ExtensionInfoView>,
    after: Seq<ExtensionInfoView>,
    r: OmniverlayResult<()>,
)
    requires
        doc.applied(before, after, r),
        exists|n: Seq<char>| #[trigger] doc.layouts().contains_key(n) && !has_name(before, n),
    ensures
        r matches Err(e) && e@ is ExtensionNotFound,
{
    let n = choose|n: Seq<char>| #[trigger] doc.layouts().contains_key(n) && !has_name(before, n);
    let entries = doc.extensions.entries();
    lemma_contains(entries, n);
    let j = choose|j: int| 0 <= j < entries.len() && #[trigger] entries[j].0 == n;
    assert(!has_name(before, entries[j].0));
    lemma_applied_ok(entries, write_layout(), before, after, r);
}

/// Writing keeps every record's name, so the same names are known after it,
/// each at its place.
pub proof fn lemma_has_name_kept<V>(
    infos: Seq<ExtensionInfoView>,
    written: Map<Seq<char>, V>,
    write: spec_fn(ExtensionInfoView, V) -> ExtensionInfoView,
    name: Seq<char>,
)
    requires
        keeps_name(write),
        distinct_infos(infos),
    ensures
        has_name(with_written(infos, written, write), name) == has_name(infos, name),
        has_name(infos, name) ==> index_of_name(with_written(infos, written, write), name)
            == index_of_name(infos, name),
{
    let after = with_written(infos, written, write);
    assert forall|p: int| 0 <= p < infos.len() implies (#[trigger] after[p]).name == infos[p].name by {
        if written.contains_key(infos[p].name) {
            assert(write(infos[p], written[infos[p].name]).name == infos[p].name);
        }
    }
    if has_name(infos, name) {
        let i = index_of_name(infos, name);
        assert(after[i].name == name);
        let j = index_of_name(after, name);
        assert(infos[j].name == name);
        if i < j {
            assert(infos[i].name != infos[j].name);
        } else if j < i {
            assert(infos[j].name != infos[i].name);
        }
    }
    if has_name(after, name) {
        let i = index_of_name(after, name);
        assert(infos[i].name == name);
    }
}

/// Writing the entry at `i` after the `i` entries before it gives what
/// writing the first `i + 1` entries gives.
pub proof fn lemma_written_step<V>(
    infos: Seq<ExtensionInfoView>,
    entries: Seq<(Seq<char>, V)>,
    write: spec_fn(ExtensionInfoView, V) -> ExtensionInfoView,
    i: int,
)
    requires
        keeps_name(write),
        distinct_infos(infos),
        distinct_names(entries),
        0 <= i < entries.len(),
        has_name(infos, entries[i].0),
    ensures
        ({
            let current = with_written(infos, entries_map(entries.take(i)), write);
            let at = index_of_name(current, entries[i].0);
            current.update(at, write(current[at], entries[i].1)) == with_written(
                infos,
                entries_map(entries.take(i + 1)),
                write,
            )
        }),
{
    let name = entries[i].0;
    let m0 = entries_map(entries.take(i));
    let m1 = entries_map(entries.take(i + 1));
    let current = with_written(infos, m0, write);
    lemma_has_name_kept(infos, m0, write, name);
    let at = index_of_name(current, name);
    assert(infos[at].name == name);
    assert(entries.take(i + 1) =~= entries.take(i).push(entries[i]));
    assert(!m0.contains_key(name)) by {
        if m0.contains_key(name) {
            let j = choose|j: int|
                0 <= j < entries.take(i).len() && #[trigger] entries.take(i)[j].0 == name;
            assert(entries[j].0 != entries[i].0);
        }
    }
    assert(distinct_names(entries.take(i))) by {
        assert forall|a: int, b: int| 0 <= a < b < entries.take(i).len() implies #[trigger] entries.take(
            i,
        )[a].0 != #[trigger] entries.take(i)[b].0 by {
            assert(entries[a].0 != entries[b].0);
        }
    }
    lemma_push(entries.take(i), name, entries[i].1);
    let updated = current.update(at, write(current[at], entries[i].1));
    let target = with_written(infos, m1, write);
    assert forall|p: int| 0 <= p < infos.len() implies updated[p] == target[p] by {
        if p != at {
            assert(infos[p].name != name) by {
                if p < at {
                    assert(infos[p].name != infos[at].name);
                } else {
                    assert(infos[at].name != infos[p].name);
                }
            }
        }
    }
    assert(updated =~= target);
}

} // verus!
