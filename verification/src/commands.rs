//! What the overlay offers to the layer that drives it: listing the
//! extensions, changing the state or the layout of several at once, and
//! starting the whole.

use crate::errors::{OmniverlayError, OmniverlayErrorView, OmniverlayResult};
use crate::event::{invoke_event, Dispatch, OmniverlayEvent, OmniverlayEventType};
use crate::extensions::codec::{encode_extension_info, encode_info};
use crate::extensions::data::{saved, OmniverlayData};
use crate::extensions::{
    records_view, registered, Extension, ExtensionInfo, ExtensionInfoView, ExtensionLayout,
    ExtensionState,
};
use crate::utils::json::{array, items_view, JsonValue, JsonValueView};
use crate::utils::name_map::NameMap;
use crate::{started, Omniverlay};
use vstd::prelude::*;
use vstd::string::StringExecFns;

verus! {

/// The map after each entry, in order, has been put into it.
pub open spec fn with_entries<V>(m: Map<Seq<char>, V>, entries: Seq<(String, V)>) -> Map<
    Seq<char>,
    V,
>
    decreases entries.len(),
{
    if entries.len() == 0 {
        m
    } else {
        with_entries(m, entries.drop_last()).insert(entries.last().0@, entries.last().1)
    }
}

/// Puts each entry, in order, into the map.
pub fn insert_all<V>(map: &mut NameMap<V>, entries: Vec<(String, V)>)
    ensures
        final(map)@ == with_entries(old(map)@, entries@),
{
    let mut entries = entries;
    let ghost all = entries@;
    let mut rest: Vec<(String, V)> = Vec::new();
    // Entries are taken from the end, so they are turned round first.
    while entries.len() > 0
        invariant
            entries@.len() + rest@.len() == all.len(),
            forall|i: int| 0 <= i < entries@.len() ==> entries@[i] == all[i],
            forall|i: int| 0 <= i < rest@.len() ==> rest@[i] == all[all.len() - 1 - i],
        decreases entries.len(),
    {
        match entries.pop() {
            Some(entry) => {
                rest.push(entry);
            },
            None => {},
        }
    }
    let ghost start = map@;
    proof {
        assert(all.take(0) =~= Seq::<(String, V)>::empty());
    }
    while rest.len() > 0
        invariant
            rest@.len() <= all.len(),
            forall|i: int| 0 <= i < rest@.len() ==> rest@[i] == all[all.len() - 1 - i],
            map@ == with_entries(start, all.take(all.len() - rest@.len())),
        decreases rest.len(),
    {
        let ghost done = all.len() - rest@.len();
        match rest.pop() {
            Some(entry) => {
                proof {
                    assert(entry == all[done]);
                    assert(all.take(done + 1).drop_last() =~= all.take(done));
                    assert(all.take(done + 1).last() == all[done]);
                }
                map.insert(entry.0, entry.1);
            },
            None => {},
        }
    }
    proof {
        assert(all.take(all.len() as int) =~= all);
    }
}

/// Every extension with its state, its layout and its configuration, as a
/// JSON array in the order of registration.
pub fn list_extensions<E: Extension>(omniverlay: &Omniverlay<E>) -> (r: OmniverlayResult<JsonValue>)
    ensures
        r matches Ok(json) && json@ == JsonValueView::Array(
            omniverlay.extension_manager.infos().map_values(|i: ExtensionInfoView| encode_info(i)),
        ),
{
    let extensions = match omniverlay.extension_manager.list_extensions() {
        Ok(extensions) => extensions,
        Err(e) => {
            return Err(e);
        },
    };
    let mut items: Vec<JsonValue> = Vec::new();
    let mut i: usize = 0;
    while i < extensions.len()
        invariant
            0 <= i <= extensions.len(),
            items.len() == i,
            forall|p: int| 0 <= p < i ==> (#[trigger] items@[p])@ == encode_info(extensions@[p]@),
        decreases extensions.len() - i,
    {
        items.push(encode_extension_info(&extensions[i]));
        i += 1;
    }
    assert(items_view(items@) =~= records_view(extensions@).map_values(
        |i: ExtensionInfoView| encode_info(i),
    ));
    Ok(array(items))
}

/// Changes the state of several extensions at once: puts the new states
/// into the current profile, saves the profile, which writes it and applies
/// it, and then announces the change. A failure to save is returned, and
/// nothing is announced.
pub fn update_extensions_state<
    E: Extension,
    W: FnOnce(&str, &JsonValue) -> OmniverlayResult<()>,
    H: Fn(OmniverlayEvent),
>(
    omniverlay: &mut Omniverlay<E>,
    states: Vec<(String, ExtensionState)>,
    write: W,
    slot: Option<&Option<H>>,
) -> (r: OmniverlayResult<Dispatch>)
    requires
        forall|file: &str, json: &JsonValue| #[trigger] write.requires((file, json)),
        slot matches Some(Some(h)) ==> forall|e: OmniverlayEvent| #[trigger] h.requires((e,)),
    ensures
        final(omniverlay).profile_manager.data.name == old(omniverlay).profile_manager.data.name,
        final(omniverlay).profile_manager.data.extensions@ == with_entries(
            old(omniverlay).profile_manager.data.extensions@,
            states@,
        ),
        final(omniverlay).layout_manager == old(omniverlay).layout_manager,
        final(omniverlay).extension_manager.held() == old(
            omniverlay,
        ).extension_manager.held(),
        saved(
            final(omniverlay).profile_manager.data,
            write,
            old(omniverlay).extension_manager.infos(),
            final(omniverlay).extension_manager.infos(),
            match r {
                Ok(_) => Ok::<(), OmniverlayError>(()),
                Err(e) => Err::<(), OmniverlayError>(e),
            },
        ),
        r matches Ok(d) ==> announced(slot, d),
{
    insert_all(&mut omniverlay.profile_manager.data.extensions, states);
    match omniverlay.profile_manager.save_data(&mut omniverlay.extension_manager, write) {
        Ok(()) => Ok(invoke_event(slot, OmniverlayEventType::UpdateExtensions)),
        Err(e) => Err(e),
    }
}

/// Changes the layout of several extensions at once: puts the new layouts
/// into the current layout document, saves the document, which writes it
/// and applies it, and then announces the change. A failure to save is
/// returned, and nothing is announced.
pub fn update_extensions_layout<
    E: Extension,
    W: FnOnce(&str, &JsonValue) -> OmniverlayResult<()>,
    H: Fn(OmniverlayEvent),
>(
    omniverlay: &mut Omniverlay<E>,
    layouts: Vec<(String, ExtensionLayout)>,
    write: W,
    slot: Option<&Option<H>>,
) -> (r: OmniverlayResult<Dispatch>)
    requires
        forall|file: &str, json: &JsonValue| #[trigger] write.requires((file, json)),
        slot matches Some(Some(h)) ==> forall|e: OmniverlayEvent| #[trigger] h.requires((e,)),
    ensures
        final(omniverlay).layout_manager.data.name == old(omniverlay).layout_manager.data.name,
        final(omniverlay).layout_manager.data.extensions@ == with_entries(
            old(omniverlay).layout_manager.data.extensions@,
            layouts@,
        ),
        final(omniverlay).profile_manager == old(omniverlay).profile_manager,
        final(omniverlay).extension_manager.held() == old(
            omniverlay,
        ).extension_manager.held(),
        saved(
            final(omniverlay).layout_manager.data,
            write,
            old(omniverlay).extension_manager.infos(),
            final(omniverlay).extension_manager.infos(),
            match r {
                Ok(_) => Ok::<(), OmniverlayError>(()),
                Err(e) => Err::<(), OmniverlayError>(e),
            },
        ),
        r matches Ok(d) ==> announced(slot, d),
{
    insert_all(&mut omniverlay.layout_manager.data.extensions, layouts);
    match omniverlay.layout_manager.save_data(&mut omniverlay.extension_manager, write) {
        Ok(()) => Ok(invoke_event(slot, OmniverlayEventType::UpdateExtensions)),
        Err(e) => Err(e),
    }
}

/// The failure to start the overlay.
pub open spec fn start_error() -> OmniverlayErrorView {
    OmniverlayErrorView::BackendInitialization("Failed to start Omniverlay"@)
}

/// Brings the backend up: registers `extension`, then starts the overlay.
/// An extension that cannot be registered fails the call with its own
/// failure, before anything is started. A start that fails is reported as
/// a failure to initialise the backend, whatever made it fail.
pub fn bootstrap_backend<
    E: Extension,
    RP: FnOnce(&str) -> OmniverlayResult<Option<JsonValue>>,
    WP: FnOnce(&str, &JsonValue) -> OmniverlayResult<()>,
    RL: FnOnce(&str) -> OmniverlayResult<Option<JsonValue>>,
    WL: FnOnce(&str, &JsonValue) -> OmniverlayResult<()>,
>(
    omniverlay: &mut Omniverlay<E>,
    extension: E,
    read_profile: RP,
    write_profile: WP,
    read_layout: RL,
    write_layout: WL,
) -> (r: OmniverlayResult<()>)
    requires
        forall|file: &str| #[trigger] read_profile.requires((file,)),
        forall|file: &str, json: &JsonValue| #[trigger] write_profile.requires((file, json)),
        forall|file: &str| #[trigger] read_layout.requires((file,)),
        forall|file: &str, json: &JsonValue| #[trigger] write_layout.requires((file, json)),
    ensures
        exists|given: OmniverlayResult<ExtensionInfo>| #[trigger]
            call_ensures(E::get_extension_info, (&extension,), given) && bootstrapped(
                given,
                extension,
                read_profile,
                write_profile,
                read_layout,
                write_layout,
                *old(omniverlay),
                *final(omniverlay),
                r,
            ),
{
    let registration = omniverlay.extension_manager.register_extension(extension);
    let ghost between = *omniverlay;
    let ghost given = choose|given: OmniverlayResult<ExtensionInfo>| #[trigger]
        call_ensures(E::get_extension_info, (&extension,), given) && match given {
            Ok(info) => registration is Ok && registered(
                old(omniverlay).extension_manager.infos(),
                old(omniverlay).extension_manager.held(),
                info@,
                extension,
                between.extension_manager.infos(),
                between.extension_manager.held(),
            ),
            Err(e) => registration == Err::<(), OmniverlayError>(e)
                && between.extension_manager.infos() == old(omniverlay).extension_manager.infos()
                && between.extension_manager.held() == old(
                omniverlay,
            ).extension_manager.held(),
        };
    match registration {
        Ok(()) => {},
        Err(e) => {
            proof {
                assert(bootstrapped(
                    given,
                    extension,
                    read_profile,
                    write_profile,
                    read_layout,
                    write_layout,
                    *old(omniverlay),
                    *omniverlay,
                    registration,
                ));
            }
            return Err(e);
        },
    }
    let start = omniverlay.startup(read_profile, write_profile, read_layout, write_layout);
    let r = match start {
        Ok(()) => Ok(()),
        Err(_) => Err(
            OmniverlayError::BackendInitialization(String::from_str("Failed to start Omniverlay")),
        ),
    };
    proof {
        assert(started(
            read_profile,
            write_profile,
            read_layout,
            write_layout,
            between,
            *omniverlay,
            start,
        ));
        assert(bootstrapped(
            given,
            extension,
            read_profile,
            write_profile,
            read_layout,
            write_layout,
            *old(omniverlay),
            *omniverlay,
            r,
        ));
    }
    r
}

/// What bringing the backend up does, given what the extension gave as its
/// record. Where it gave none, its failure is returned and nothing changes.
/// Else the extension is registered under that record and the overlay is
/// started from there, with no hook run: a start that succeeds makes the
/// whole succeed, one that fails is returned as the failure to start.
pub open spec fn bootstrapped<
    E: Extension,
    RP: FnOnce(&str) -> OmniverlayResult<Option<JsonValue>>,
    WP: FnOnce(&str, &JsonValue) -> OmniverlayResult<()>,
    RL: FnOnce(&str) -> OmniverlayResult<Option<JsonValue>>,
    WL: FnOnce(&str, &JsonValue) -> OmniverlayResult<()>,
>(
    given: OmniverlayResult<ExtensionInfo>,
    extension: E,
    read_profile: RP,
    write_profile: WP,
    read_layout: RL,
    write_layout: WL,
    before: Omniverlay<E>,
    after: Omniverlay<E>,
    r: OmniverlayResult<()>,
) -> bool {
    match given {
        Err(e) => {
            &&& r == Err::<(), OmniverlayError>(e)
            &&& after.extension_manager.infos() == before.extension_manager.infos()
            &&& after.extension_manager.held() == before.extension_manager.held()
            &&& after.profile_manager == before.profile_manager
            &&& after.layout_manager == before.layout_manager
        },
        Ok(info) => exists|between: Omniverlay<E>, start: OmniverlayResult<()>|
            {
                &&& registered(
                    before.extension_manager.infos(),
                    before.extension_manager.held(),
                    info@,
                    extension,
                    between.extension_manager.infos(),
                    between.extension_manager.held(),
                )
                &&& between.profile_manager == before.profile_manager
                &&& between.layout_manager == before.layout_manager
                &&& #[trigger] started(
                    read_profile,
                    write_profile,
                    read_layout,
                    write_layout,
                    between,
                    after,
                    start,
                )
                &&& after.extension_manager.held() == between.extension_manager.held()
                &&& start is Ok ==> r is Ok
                &&& start is Err ==> (r matches Err(e) && e@ == start_error())
            },
    }
}

/// The change to the extensions was announced through `slot`, with the
/// outcome `d`.
pub open spec fn announced<H: Fn(OmniverlayEvent)>(slot: Option<&Option<H>>, d: Dispatch) -> bool {
    match slot {
        Some(Some(h)) => d == Dispatch::Delivered && h.ensures(
            (OmniverlayEvent { event_type: OmniverlayEventType::UpdateExtensions },),
            (),
        ),
        Some(None) => d == Dispatch::NoHandler,
        None => d == Dispatch::NotInitialized,
    }
}

} // verus!
