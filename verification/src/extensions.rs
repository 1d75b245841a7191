//! Extensions, their records and the registry that holds them.

use crate::errors::{OmniverlayError, OmniverlayErrorView, OmniverlayResult};
use crate::extensions::config::{ExtensionConfig, ExtensionConfigManager, ExtensionConfigView};
use crate::utils::text::same_text;
use vstd::prelude::*;
use vstd::string::StringExecFns;

pub mod codec;
pub mod config;
pub mod data;
pub mod performance;

verus! {

/// Where an extension is drawn and how large.
#[derive(Clone, Copy, Debug, PartialEq, Eq, Structural)]
pub struct ExtensionLayout {
    pub width: u32,
    pub height: u32,
    pub x: u32,
    pub y: u32,
}

/// The rectangle of an extension on the screen.
#[derive(Clone, Copy, Debug, PartialEq, Eq, Structural)]
pub struct ExtensionGeometry {
    pub width: u32,
    pub height: u32,
    pub x: u32,
    pub y: u32,
}

/// Whether an extension is enabled, and its configuration if it has one.
#[derive(Debug)]
pub struct ExtensionState {
    pub is_enabled: bool,
    pub config: Option<ExtensionConfig>,
}

pub struct ExtensionStateView {
    pub is_enabled: bool,
    pub config: Option<ExtensionConfigView>,
}

impl View for ExtensionState {
    type V = ExtensionStateView;

    open spec fn view(&self) -> ExtensionStateView {
        ExtensionStateView {
            is_enabled: self.is_enabled,
            config: match self.config {
                Some(c) => Some(c@),
                None => None,
            },
        }
    }
}

impl Default for ExtensionState {
    /// Disabled, without a configuration.
    fn default() -> (s: Self)
        ensures
            s@ == (ExtensionStateView { is_enabled: false, config: None }),
    {
        Self { is_enabled: false, config: None }
    }
}

impl Clone for ExtensionState {
    fn clone(&self) -> (r: Self)
        ensures
            r@ == self@,
    {
        let config = match &self.config {
            Some(c) => Some(c.clone()),
            None => None,
        };
        ExtensionState { is_enabled: self.is_enabled, config }
    }
}

/// The record of an extension: its name, its state and its layout if it has one.
#[derive(Debug)]
pub struct ExtensionInfo {
    pub name: String,
    pub state: ExtensionState,
    pub layout: Option<ExtensionLayout>,
}

pub struct ExtensionInfoView {
    pub name: Seq<char>,
    pub state: ExtensionStateView,
    pub layout: Option<ExtensionLayout>,
}

impl View for ExtensionInfo {
    type V = ExtensionInfoView;

    open spec fn view(&self) -> ExtensionInfoView {
        ExtensionInfoView { name: self.name@, state: self.state@, layout: self.layout }
    }
}

impl Clone for ExtensionInfo {
    fn clone(&self) -> (r: Self)
        ensures
            r@ == self@,
    {
        ExtensionInfo { name: self.name.clone(), state: self.state.clone(), layout: self.layout }
    }
}

impl ExtensionInfoView {
    /// The record with its enabled flag set to `enabled`.
    pub open spec fn with_enabled(self, enabled: bool) -> ExtensionInfoView {
        ExtensionInfoView {
            state: ExtensionStateView { is_enabled: enabled, ..self.state },
            ..self
        }
    }

    /// The record with its whole state replaced.
    pub open spec fn with_state(self, state: ExtensionStateView) -> ExtensionInfoView {
        ExtensionInfoView { state: state, ..self }
    }

    /// The record with `layout` as its layout.
    pub open spec fn with_layout(self, layout: ExtensionLayout) -> ExtensionInfoView {
        ExtensionInfoView { layout: Some(layout), ..self }
    }
}

/// Setting the enabled flag twice in a row to the same value runs at most
/// one hook: once the first request has succeeded, the record says what
/// was asked, and a request for what the record says runs no hook.
pub proof fn lemma_set_enabled_idempotent(info: ExtensionInfoView, enabled: bool)
    ensures
        info.with_enabled(enabled).state.is_enabled == enabled,
        info.with_enabled(enabled).with_enabled(enabled) == info.with_enabled(enabled),
{
}

/// A pluggable unit of overlay behaviour: two hooks, `enable` and `disable`,
/// that do whatever the extension needs when it is switched on or off, and
/// the record that the extension starts with. What a hook does, and whether
/// it succeeds, is the extension's own affair.
pub trait Extension: Send {
    /// Runs when the extension is switched on.
    fn enable(&mut self) -> OmniverlayResult<()>;

    /// Runs when the extension is switched off.
    fn disable(&mut self) -> OmniverlayResult<()>;

    /// The record of the extension: its name, and the state and the layout
    /// it has before anyone has changed them.
    fn get_extension_info(&self) -> OmniverlayResult<ExtensionInfo>;
}

impl Extension for Box<dyn Extension> {
    fn enable(&mut self) -> OmniverlayResult<()> {
        (**self).enable()
    }

    fn disable(&mut self) -> OmniverlayResult<()> {
        (**self).disable()
    }

    fn get_extension_info(&self) -> OmniverlayResult<ExtensionInfo> {
        (**self).get_extension_info()
    }
}

/// What a hook returned is what the caller gets: success for success, and a
/// failure as it is.
pub open spec fn handed_on(outcome: OmniverlayResult<()>, r: OmniverlayResult<()>) -> bool {
    &&& outcome is Ok ==> r is Ok
    &&& outcome is Err ==> r == outcome
}

/// An extension in the registry, with its record. The record is changed
/// only through the methods here, and the hooks of the extension run only
/// from `set_enabled`.
pub struct RegisteredExtension<E: Extension> {
    info: ExtensionInfo,
    extension: E,
}

impl<E: Extension> RegisteredExtension<E> {
    /// The record.
    pub closed spec fn info(&self) -> ExtensionInfoView {
        self.info@
    }

    /// The extension itself.
    pub closed spec fn extension_of(&self) -> E {
        self.extension
    }

    /// Puts `extension` under the record `info`.
    pub fn new(info: ExtensionInfo, extension: E) -> (r: Self)
        ensures
            r.info() == info@,
            r.extension_of() == extension,
    {
        RegisteredExtension { info, extension }
    }

    /// The record, to read.
    pub fn get_extension_info(&self) -> (info: &ExtensionInfo)
        ensures
            info@ == self.info(),
    {
        &self.info
    }

    /// The extension, to read.
    pub fn extension(&self) -> (e: &E)
        ensures
            *e == self.extension_of(),
    {
        &self.extension
    }

    /// Replaces the layout, without asking a hook.
    pub fn update_layout(&mut self, layout: ExtensionLayout) -> (r: OmniverlayResult<()>)
        ensures
            r is Ok,
            final(self).info() == old(self).info().with_layout(layout),
            final(self).extension_of() == old(self).extension_of(),
    {
        self.info.layout = Some(layout);
        Ok(())
    }

    /// Replaces the whole state, enabled flag and configuration, without
    /// asking a hook.
    pub fn update_state(&mut self, new_state: ExtensionState) -> (r: OmniverlayResult<()>)
        ensures
            r is Ok,
            final(self).info() == old(self).info().with_state(new_state@),
            final(self).extension_of() == old(self).extension_of(),
    {
        self.info.state = new_state;
        Ok(())
    }

    /// Switches the extension on or off. Where the record already says
    /// `enabled`, nothing happens and no hook runs: the extension is left
    /// untouched. Otherwise the matching hook runs once, `enable` to switch
    /// on and `disable` to switch off; the flag is recorded only if the
    /// hook succeeds, and a failure of the hook is returned as it is.
    pub fn set_enabled(&mut self, enabled: bool) -> (r: OmniverlayResult<()>)
        ensures
            old(self).info().state.is_enabled == enabled ==> r is Ok && final(self).extension_of()
                == old(self).extension_of(),
            old(self).info().state.is_enabled != enabled && enabled ==> exists|
                hooked: &mut E,
                outcome: OmniverlayResult<()>,
            | #[trigger]
                call_ensures(E::enable, (hooked,), outcome) && *hooked == old(self).extension_of()
                    && *final(hooked) == final(self).extension_of() && handed_on(outcome, r),
            old(self).info().state.is_enabled != enabled && !enabled ==> exists|
                hooked: &mut E,
                outcome: OmniverlayResult<()>,
            | #[trigger]
                call_ensures(E::disable, (hooked,), outcome) && *hooked == old(self).extension_of()
                    && *final(hooked) == final(self).extension_of() && handed_on(outcome, r),
            r is Ok ==> final(self).info() == old(self).info().with_enabled(enabled),
            r is Err ==> final(self).info() == old(self).info(),
    {
        if self.info.state.is_enabled == enabled {
            return Ok(());
        }
        let outcome = if enabled {
            self.extension.enable()
        } else {
            self.extension.disable()
        };
        Self::record_outcome(&mut self.info, enabled, outcome)
    }

    /// Records how a hook ended: on success the flag becomes `enabled`, on
    /// failure the record stays as it is and the failure is handed on.
    pub fn record_outcome(
        info: &mut ExtensionInfo,
        enabled: bool,
        outcome: OmniverlayResult<()>,
    ) -> (r: OmniverlayResult<()>)
        ensures
            match outcome {
                Ok(()) => r is Ok && final(info)@ == old(info)@.with_enabled(enabled),
                Err(e) => r == Err::<(), OmniverlayError>(e) && final(info)@ == old(info)@,
            },
    {
        match outcome {
            Ok(()) => {
                info.state.is_enabled = enabled;
                Ok(())
            },
            Err(e) => Err(e),
        }
    }
}

/// The records of a sequence of extensions.
pub open spec fn infos_of<E: Extension>(extensions: Seq<RegisteredExtension<E>>) -> Seq<
    ExtensionInfoView,
> {
    extensions.map_values(|e: RegisteredExtension<E>| e.info())
}

/// The extensions themselves of a sequence of registry entries.
pub open spec fn held_of<E: Extension>(extensions: Seq<RegisteredExtension<E>>) -> Seq<E> {
    extensions.map_values(|e: RegisteredExtension<E>| e.extension_of())
}

/// The views of a sequence of records.
pub open spec fn records_view(records: Seq<ExtensionInfo>) -> Seq<ExtensionInfoView> {
    records.map_values(|r: ExtensionInfo| r@)
}

/// Some record of `infos` carries `name`.
pub open spec fn has_name(infos: Seq<ExtensionInfoView>, name: Seq<char>) -> bool {
    exists|i: int| 0 <= i < infos.len() && #[trigger] infos[i].name == name
}

/// The place of a record of `infos` that carries `name`.
pub open spec fn index_of_name(infos: Seq<ExtensionInfoView>, name: Seq<char>) -> int {
    choose|i: int| 0 <= i < infos.len() && #[trigger] infos[i].name == name
}

/// No two records carry the same name.
pub open spec fn distinct_infos(infos: Seq<ExtensionInfoView>) -> bool {
    forall|i: int, j: int|
        0 <= i < j < infos.len() ==> (#[trigger] infos[i]).name != (#[trigger] infos[j]).name
}

/// The records after `info` has been registered: it takes the place of the
/// record of its name, or comes last where the name is new.
pub open spec fn with_registered(
    infos: Seq<ExtensionInfoView>,
    info: ExtensionInfoView,
) -> Seq<ExtensionInfoView> {
    if has_name(infos, info.name) {
        infos.update(index_of_name(infos, info.name), info)
    } else {
        infos.push(info)
    }
}

/// What registering `extension` under the record `info` does: the records
/// are those of `with_registered`, and the extension is held in the place
/// of its record, where the extension registered before under that name,
/// if there was one, is held no longer.
pub open spec fn registered<E: Extension>(
    infos: Seq<ExtensionInfoView>,
    held: Seq<E>,
    info: ExtensionInfoView,
    extension: E,
    new_infos: Seq<ExtensionInfoView>,
    new_held: Seq<E>,
) -> bool {
    &&& new_infos == with_registered(infos, info)
    &&& new_held == if has_name(infos, info.name) {
        held.update(index_of_name(infos, info.name), extension)
    } else {
        held.push(extension)
    }
}

/// Among distinct records, the record at `i` is the one found by its name.
pub proof fn lemma_index_of_name(infos: Seq<ExtensionInfoView>, i: int)
    requires
        distinct_infos(infos),
        0 <= i < infos.len(),
    ensures
        has_name(infos, infos[i].name),
        index_of_name(infos, infos[i].name) == i,
{
    let j = index_of_name(infos, infos[i].name);
    assert(j == i);
}

/// Layouts written to two different extensions do not disturb each other:
/// both are in the records afterwards, whichever was written first.
pub proof fn lemma_layout_writes_are_independent(
    infos: Seq<ExtensionInfoView>,
    first: Seq<char>,
    first_layout: ExtensionLayout,
    second: Seq<char>,
    second_layout: ExtensionLayout,
)
    requires
        distinct_infos(infos),
        has_name(infos, first),
        has_name(infos, second),
        first != second,
    ensures
        ({
            let i = index_of_name(infos, first);
            let j = index_of_name(infos, second);
            let one_way = infos.update(i, infos[i].with_layout(first_layout)).update(
                j,
                infos[j].with_layout(second_layout),
            );
            let other_way = infos.update(j, infos[j].with_layout(second_layout)).update(
                i,
                infos[i].with_layout(first_layout),
            );
            &&& i != j
            &&& one_way == other_way
            &&& one_way[i].layout == Some(first_layout)
            &&& one_way[j].layout == Some(second_layout)
        }),
{
    let i = index_of_name(infos, first);
    let j = index_of_name(infos, second);
    let one_way = infos.update(i, infos[i].with_layout(first_layout)).update(
        j,
        infos[j].with_layout(second_layout),
    );
    let other_way = infos.update(j, infos[j].with_layout(second_layout)).update(
        i,
        infos[i].with_layout(first_layout),
    );
    assert(one_way =~= other_way);
}

/// The registry: every registered extension, found by the name in its record.
pub struct ExtensionManager<E: Extension> {
    config_manager: ExtensionConfigManager,
    extensions: Vec<RegisteredExtension<E>>,
}

impl<E: Extension> ExtensionManager<E> {
    /// The records of the registered extensions, in the order of registration.
    pub closed spec fn infos(&self) -> Seq<ExtensionInfoView> {
        infos_of(self.extensions@)
    }

    /// The registered extensions themselves, each at the place of its
    /// record. Where this has not changed, no hook has run.
    pub closed spec fn held(&self) -> Seq<E> {
        held_of(self.extensions@)
    }

    /// The configurations that the registry keeps beside the extensions.
    pub closed spec fn configs(&self) -> Map<Seq<char>, ExtensionConfigView> {
        self.config_manager@
    }

    /// Every record has its extension at its place.
    pub proof fn lemma_one_extension_for_each_record(&self)
        ensures
            self.held().len() == self.infos().len(),
    {
    }

    /// No name is registered twice.
    #[verifier::type_invariant]
    pub open spec fn wf(&self) -> bool {
        distinct_infos(self.infos())
    }

    pub fn new() -> (m: Self)
        ensures
            m.infos() == Seq::<ExtensionInfoView>::empty(),
            m.held() == Seq::<E>::empty(),
            m.configs() == Map::<Seq<char>, ExtensionConfigView>::empty(),
    {
        let m = Self { config_manager: ExtensionConfigManager::new(), extensions: Vec::new() };
        assert(m.infos() =~= Seq::<ExtensionInfoView>::empty());
        assert(m.held() =~= Seq::<E>::empty());
        m
    }

    /// The place of the extension called `name`.
    fn position(&self, name: &str) -> (r: Option<usize>)
        ensures
            distinct_infos(self.infos()),
            match r {
                Some(i) => i < self.infos().len() && self.infos()[i as int].name == name@
                    && has_name(self.infos(), name@) && index_of_name(self.infos(), name@) == i,
                None => !has_name(self.infos(), name@),
            },
    {
        proof {
            use_type_invariant(self);
        }
        let mut i: usize = 0;
        while i < self.extensions.len()
            invariant
                0 <= i <= self.extensions.len(),
                distinct_infos(self.infos()),
                forall|j: int| 0 <= j < i ==> (#[trigger] self.infos()[j]).name != name@,
            decreases self.extensions.len() - i,
        {
            if same_text(self.extensions[i].get_extension_info().name.as_str(), name) {
                assert(self.infos()[i as int].name == name@);
                proof {
                    lemma_index_of_name(self.infos(), i as int);
                }
                return Some(i);
            }
            i += 1;
        }
        None
    }

    /// Registers `extension` under the name in the record that it gives. An
    /// extension registered earlier under that name is replaced, record and
    /// all. Where the extension gives no record, nothing is registered and
    /// its failure is returned.
    pub fn register_extension(&mut self, extension: E) -> (r: OmniverlayResult<()>)
        ensures
            exists|given: OmniverlayResult<ExtensionInfo>| #[trigger]
                call_ensures(E::get_extension_info, (&extension,), given) && match given {
                    Ok(info) => r is Ok && registered(
                        old(self).infos(),
                        old(self).held(),
                        info@,
                        extension,
                        final(self).infos(),
                        final(self).held(),
                    ),
                    Err(e) => r == Err::<(), OmniverlayError>(e) && final(self).infos() == old(
                        self,
                    ).infos() && final(self).held() == old(self).held(),
                },
            final(self).configs() == old(self).configs(),
    {
        let given = extension.get_extension_info();
        match given {
            Ok(info) => {
                self.register_with_info(info, extension);
                Ok(())
            },
            Err(e) => Err(e),
        }
    }

    /// Registers `extension` under the record `info`, in the place of the
    /// extension registered under that name, or last where the name is new.
    pub fn register_with_info(&mut self, info: ExtensionInfo, extension: E)
        ensures
            registered(
                old(self).infos(),
                old(self).held(),
                info@,
                extension,
                final(self).infos(),
                final(self).held(),
            ),
            final(self).configs() == old(self).configs(),
    {
        let found = self.position(info.name.as_str());
        let ghost before = self.infos();
        let ghost held = self.held();
        let ghost record = info@;
        let mut extensions: Vec<RegisteredExtension<E>> = Vec::new();
        core::mem::swap(&mut self.extensions, &mut extensions);
        let entry = RegisteredExtension::new(info, extension);
        match found {
            Some(i) => {
                extensions.set(i, entry);
                assert(infos_of(extensions@) =~= before.update(i as int, record));
                assert(held_of(extensions@) =~= held.update(i as int, extension));
            },
            None => {
                extensions.push(entry);
                assert(infos_of(extensions@) =~= before.push(record));
                assert(held_of(extensions@) =~= held.push(extension));
            },
        }
        proof {
            let after = infos_of(extensions@);
            assert forall|a: int, b: int| 0 <= a < b < after.len() implies (#[trigger] after[a]).name
                != (#[trigger] after[b]).name by {
                if found is Some {
                    assert(before[a].name != before[b].name);
                } else if b == before.len() {
                    assert(before[a].name != record.name);
                } else {
                    assert(before[a].name != before[b].name);
                }
            }
        }
        core::mem::swap(&mut self.extensions, &mut extensions);
    }

    /// Switches the named extension on, through its `set_enabled`.
    pub fn enable_extension(&mut self, extension_name: &str) -> (r: OmniverlayResult<()>)
        ensures
            set_enabled_outcome(
                old(self).infos(),
                old(self).held(),
                final(self).infos(),
                final(self).held(),
                extension_name@,
                true,
                r,
            ),
            has_name(old(self).infos(), extension_name@) && !old(self).infos()[index_of_name(
                old(self).infos(),
                extension_name@,
            )].state.is_enabled ==> exists|
                hooked: &mut E,
                outcome: OmniverlayResult<()>,
            | #[trigger]
                call_ensures(E::enable, (hooked,), outcome) && *hooked == old(
                    self,
                ).held()[index_of_name(old(self).infos(), extension_name@)] && *final(hooked)
                    == final(self).held()[index_of_name(
                    old(self).infos(),
                    extension_name@,
                )] && handed_on(outcome, r),
            final(self).configs() == old(self).configs(),
    {
        self.set_extension_enabled(extension_name, true)
    }

    /// Switches the named extension off, through its `set_enabled`.
    pub fn disable_extension(&mut self, extension_name: &str) -> (r: OmniverlayResult<()>)
        ensures
            set_enabled_outcome(
                old(self).infos(),
                old(self).held(),
                final(self).infos(),
                final(self).held(),
                extension_name@,
                false,
                r,
            ),
            has_name(old(self).infos(), extension_name@) && old(self).infos()[index_of_name(
                old(self).infos(),
                extension_name@,
            )].state.is_enabled ==> exists|
                hooked: &mut E,
                outcome: OmniverlayResult<()>,
            | #[trigger]
                call_ensures(E::disable, (hooked,), outcome) && *hooked == old(
                    self,
                ).held()[index_of_name(old(self).infos(), extension_name@)] && *final(hooked)
                    == final(self).held()[index_of_name(
                    old(self).infos(),
                    extension_name@,
                )] && handed_on(outcome, r),
            final(self).configs() == old(self).configs(),
    {
        self.set_extension_enabled(extension_name, false)
    }

    /// Replaces the state of the named extension, enabled flag and
    /// configuration at once. No hook runs.
    pub fn update_extension_state(&mut self, extension_name: &str, state: ExtensionState) -> (r:
        OmniverlayResult<()>)
        ensures
            write_outcome(
                old(self).infos(),
                final(self).infos(),
                extension_name@,
                |info: ExtensionInfoView| info.with_state(state@),
                r,
            ),
            final(self).held() == old(self).held(),
            final(self).configs() == old(self).configs(),
    {
        match self.position(extension_name) {
            Some(i) => {
                let ghost before = self.infos();
                let ghost held = self.held();
                let mut extensions: Vec<RegisteredExtension<E>> = Vec::new();
                core::mem::swap(&mut self.extensions, &mut extensions);
                let r = extensions[i].update_state(state);
                proof {
                    let after = infos_of(extensions@);
                    assert(after =~= before.update(i as int, before[i as int].with_state(state@)));
                    assert(held_of(extensions@) =~= held);
                    assert forall|a: int, b: int| 0 <= a < b < after.len() implies (
                    #[trigger] after[a]).name != (#[trigger] after[b]).name by {
                        assert(before[a].name != before[b].name);
                    }
                }
                core::mem::swap(&mut self.extensions, &mut extensions);
                r
            },
            None => Err(OmniverlayError::ExtensionNotFound(String::from_str(extension_name))),
        }
    }

    /// Replaces the layout of the named extension. No hook runs.
    pub fn update_extension_layout(&mut self, extension_name: &str, layout: ExtensionLayout) -> (r:
        OmniverlayResult<()>)
        ensures
            write_outcome(
                old(self).infos(),
                final(self).infos(),
                extension_name@,
                |info: ExtensionInfoView| info.with_layout(layout),
                r,
            ),
            final(self).held() == old(self).held(),
            final(self).configs() == old(self).configs(),
    {
        match self.position(extension_name) {
            Some(i) => {
                let ghost before = self.infos();
                let ghost held = self.held();
                let mut extensions: Vec<RegisteredExtension<E>> = Vec::new();
                core::mem::swap(&mut self.extensions, &mut extensions);
                let r = extensions[i].update_layout(layout);
                proof {
                    let after = infos_of(extensions@);
                    assert(after =~= before.update(i as int, before[i as int].with_layout(layout)));
                    assert(held_of(extensions@) =~= held);
                    assert forall|a: int, b: int| 0 <= a < b < after.len() implies (
                    #[trigger] after[a]).name != (#[trigger] after[b]).name by {
                        assert(before[a].name != before[b].name);
                    }
                }
                core::mem::swap(&mut self.extensions, &mut extensions);
                r
            },
            None => Err(OmniverlayError::ExtensionNotFound(String::from_str(extension_name))),
        }
    }

    /// The extension called `name`.
    pub fn get_extension_by_name(&self, name: &str) -> (r: OmniverlayResult<
        &RegisteredExtension<E>,
    >)
        ensures
            match r {
                Ok(extension) => has_name(self.infos(), name@) && extension.info()
                    == self.infos()[index_of_name(self.infos(), name@)] && extension.extension_of()
                    == self.held()[index_of_name(self.infos(), name@)],
                Err(e) => !has_name(self.infos(), name@) && e@
                    == OmniverlayErrorView::ExtensionNotFound(name@),
            },
    {
        match self.position(name) {
            Some(i) => Ok(&self.extensions[i]),
            None => Err(OmniverlayError::ExtensionNotFound(String::from_str(name))),
        }
    }

    /// A copy of every record, in the order of registration.
    pub fn list_extensions(&self) -> (r: OmniverlayResult<Vec<ExtensionInfo>>)
        ensures
            r matches Ok(list) && records_view(list@) == self.infos(),
    {
        let mut extension_infos: Vec<ExtensionInfo> = Vec::new();
        let mut i: usize = 0;
        while i < self.extensions.len()
            invariant
                0 <= i <= self.extensions.len(),
                extension_infos.len() == i,
                forall|j: int| 0 <= j < i ==> (#[trigger] extension_infos@[j])@ == self.infos()[j],
            decreases self.extensions.len() - i,
        {
            extension_infos.push(self.extensions[i].get_extension_info().clone());
            i += 1;
        }
        assert(records_view(extension_infos@) =~= self.infos());
        Ok(extension_infos)
    }

    fn set_extension_enabled(&mut self, extension_name: &str, enabled: bool) -> (r:
        OmniverlayResult<()>)
        ensures
            set_enabled_outcome(
                old(self).infos(),
                old(self).held(),
                final(self).infos(),
                final(self).held(),
                extension_name@,
                enabled,
                r,
            ),
            enabled && has_name(old(self).infos(), extension_name@) && !old(
                self,
            ).infos()[index_of_name(old(self).infos(), extension_name@)].state.is_enabled ==> exists|
                hooked: &mut E,
                outcome: OmniverlayResult<()>,
            | #[trigger]
                call_ensures(E::enable, (hooked,), outcome) && *hooked == old(
                    self,
                ).held()[index_of_name(old(self).infos(), extension_name@)] && *final(hooked)
                    == final(self).held()[index_of_name(
                    old(self).infos(),
                    extension_name@,
                )] && handed_on(outcome, r),
            !enabled && has_name(old(self).infos(), extension_name@) && old(
                self,
            ).infos()[index_of_name(old(self).infos(), extension_name@)].state.is_enabled ==> exists|
                hooked: &mut E,
                outcome: OmniverlayResult<()>,
            | #[trigger]
                call_ensures(E::disable, (hooked,), outcome) && *hooked == old(
                    self,
                ).held()[index_of_name(old(self).infos(), extension_name@)] && *final(hooked)
                    == final(self).held()[index_of_name(
                    old(self).infos(),
                    extension_name@,
                )] && handed_on(outcome, r),
            final(self).configs() == old(self).configs(),
    {
        match self.position(extension_name) {
            Some(i) => {
                let ghost before = self.infos();
                let ghost held = self.held();
                let mut extensions: Vec<RegisteredExtension<E>> = Vec::new();
                core::mem::swap(&mut self.extensions, &mut extensions);
                let r = extensions[i].set_enabled(enabled);
                proof {
                    let after = infos_of(extensions@);
                    if r is Ok {
                        assert(after =~= before.update(
                            i as int,
                            before[i as int].with_enabled(enabled),
                        ));
                    } else {
                        assert(after =~= before);
                    }
                    assert(held_of(extensions@) =~= held.update(
                        i as int,
                        held_of(extensions@)[i as int],
                    ));
                    if before[i as int].state.is_enabled == enabled {
                        assert(held_of(extensions@) =~= held);
                    }
                    assert forall|a: int, b: int| 0 <= a < b < after.len() implies (
                    #[trigger] after[a]).name != (#[trigger] after[b]).name by {
                        assert(before[a].name != before[b].name);
                    }
                }
                core::mem::swap(&mut self.extensions, &mut extensions);
                r
            },
            None => Err(OmniverlayError::ExtensionNotFound(String::from_str(extension_name))),
        }
    }
}

/// What a raw write to the record of the extension called `name` does: an
/// unknown name fails and changes nothing, a known one succeeds and its
/// record becomes `written`.
pub open spec fn write_outcome(
    before: Seq<ExtensionInfoView>,
    after: Seq<ExtensionInfoView>,
    name: Seq<char>,
    written: spec_fn(ExtensionInfoView) -> ExtensionInfoView,
    r: OmniverlayResult<()>,
) -> bool {
    if has_name(before, name) {
        let i = index_of_name(before, name);
        &&& r is Ok
        &&& after == before.update(i, written(before[i]))
    } else {
        &&& r matches Err(e) && e@ == OmniverlayErrorView::ExtensionNotFound(name)
        &&& after == before
    }
}

/// What a request to set the enabled flag of the extension called `name`
/// does to the records and to the extensions, and what it returns. An
/// unknown name fails and changes nothing. A known one succeeds at once
/// where the flag is already as asked, and no extension is touched. Else
/// a hook runs once on the extension of that name, and no other extension
/// is touched; on success the flag is recorded, on failure the records
/// stay. Which hook runs, and that its outcome is handed on, is said by the
/// functions that make the request.
pub open spec fn set_enabled_outcome<E: Extension>(
    before: Seq<ExtensionInfoView>,
    held_before: Seq<E>,
    after: Seq<ExtensionInfoView>,
    held_after: Seq<E>,
    name: Seq<char>,
    enabled: bool,
    r: OmniverlayResult<()>,
) -> bool {
    if has_name(before, name) {
        let i = index_of_name(before, name);
        &&& before[i].state.is_enabled == enabled ==> r is Ok && held_after == held_before
        &&& before[i].state.is_enabled != enabled ==> held_after == held_before.update(
            i,
            held_after[i],
        )
        &&& r is Ok ==> after == before.update(i, before[i].with_enabled(enabled))
        &&& r is Err ==> after == before
    } else {
        &&& r matches Err(e) && e@ == OmniverlayErrorView::ExtensionNotFound(name)
        &&& after == before
        &&& held_after == held_before
    }
}

} // verus!
