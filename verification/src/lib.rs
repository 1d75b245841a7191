//! Extension registry and state synchronisation for a desktop overlay.
//!
//! The registry tracks which extensions exist, whether each is enabled, where
//! it is drawn and how it is configured, and reconciles that live state with
//! named profile and layout documents.
//!
//! The library owns its state outright: whoever shares an overlay between
//! tasks puts it behind a lock of their own. It touches no file either.
//! Where a document is loaded or saved, the caller hands in a reader and a
//! writer for JSON values, and the library decides what is read, what is
//! written, and in which order.

use crate::errors::OmniverlayResult;
use crate::extensions::data::{
    switch_outcome, ExtensionDataManager, OmniverlayData, OmniverlayLayout, OmniverlayProfile,
};
use crate::utils::json::JsonValue;
use crate::extensions::{
    Extension, ExtensionInfoView, ExtensionLayout, ExtensionManager, ExtensionState,
};
use vstd::prelude::*;
use vstd::string::StringExecFns;

pub mod commands;
pub mod errors;
pub mod event;
pub mod extensions;
pub mod utils;

verus! {

/// What starting does to an overlay: it switches to the profile called
/// "default", then to the layout called "default". Where the profile
/// cannot be switched, that failure is returned and the layout is not touched.
pub open spec fn started<
    E: Extension,
    RP: FnOnce(&str) -> OmniverlayResult<Option<JsonValue>>,
    WP: FnOnce(&str, &JsonValue) -> OmniverlayResult<()>,
    RL: FnOnce(&str) -> OmniverlayResult<Option<JsonValue>>,
    WL: FnOnce(&str, &JsonValue) -> OmniverlayResult<()>,
>(
    read_profile: RP,
    write_profile: WP,
    read_layout: RL,
    write_layout: WL,
    before: Omniverlay<E>,
    after: Omniverlay<E>,
    r: OmniverlayResult<()>,
) -> bool {
    exists|between: Seq<ExtensionInfoView>, first: OmniverlayResult<()>|
        {
            &&& #[trigger] switch_outcome(
                "default"@,
                read_profile,
                write_profile,
                before.profile_manager.data,
                after.profile_manager.data,
                before.extension_manager.infos(),
                between,
                first,
            )
            &&& first is Err ==> r == first && after.layout_manager.data
                == before.layout_manager.data && after.extension_manager.infos() == between
            &&& first is Ok ==> switch_outcome(
                "default"@,
                read_layout,
                write_layout,
                before.layout_manager.data,
                after.layout_manager.data,
                between,
                after.extension_manager.infos(),
                r,
            )
        }
}

/// The overlay's core in one piece: the registry of extensions, the manager
/// of the current profile and the manager of the current layout.
pub struct Omniverlay<E: Extension> {
    pub extension_manager: ExtensionManager<E>,
    pub profile_manager: ExtensionDataManager<OmniverlayProfile>,
    pub layout_manager: ExtensionDataManager<OmniverlayLayout>,
}

impl<E: Extension> Omniverlay<E> {
    /// An overlay without extensions, whose current profile and layout are
    /// the default ones.
    pub fn new() -> (o: Self)
        ensures
            o.extension_manager.infos() == Seq::<ExtensionInfoView>::empty(),
            o.profile_manager.data.doc_name() == "default"@,
            o.layout_manager.data.doc_name() == "default"@,
            o.profile_manager.data.extensions.entries() == Seq::<
                (Seq<char>, ExtensionState),
            >::empty(),
            o.layout_manager.data.extensions.entries() == Seq::<
                (Seq<char>, ExtensionLayout),
            >::empty(),
    {
        Omniverlay {
            extension_manager: ExtensionManager::new(),
            profile_manager: ExtensionDataManager::new(),
            layout_manager: ExtensionDataManager::new(),
        }
    }

    /// Starts the overlay: switches to the profile called "default", then
    /// to the layout called "default". Where the profile cannot be switched,
    /// the layout is not touched.
    pub fn startup<
        RP: FnOnce(&str) -> OmniverlayResult<Option<JsonValue>>,
        WP: FnOnce(&str, &JsonValue) -> OmniverlayResult<()>,
        RL: FnOnce(&str) -> OmniverlayResult<Option<JsonValue>>,
        WL: FnOnce(&str, &JsonValue) -> OmniverlayResult<()>,
    >(&mut self, read_profile: RP, write_profile: WP, read_layout: RL, write_layout: WL) -> (r:
        OmniverlayResult<()>)
        requires
            forall|file: &str| #[trigger] read_profile.requires((file,)),
            forall|file: &str, json: &JsonValue| #[trigger] write_profile.requires((file, json)),
            forall|file: &str| #[trigger] read_layout.requires((file,)),
            forall|file: &str, json: &JsonValue| #[trigger] write_layout.requires((file, json)),
        ensures
            final(self).extension_manager.held() == old(self).extension_manager.held(),
            started(
                read_profile,
                write_profile,
                read_layout,
                write_layout,
                *old(self),
                *final(self),
                r,
            ),
    {
        let first = self.profile_manager.switch_data(
            String::from_str("default"),
            &mut self.extension_manager,
            read_profile,
            write_profile,
        );
        let ghost between = self.extension_manager.infos();
        match first {
            Ok(()) => {},
            Err(e) => {
                assert(switch_outcome(
                    "default"@,
                    read_profile,
                    write_profile,
                    old(self).profile_manager.data,
                    self.profile_manager.data,
                    old(self).extension_manager.infos(),
                    between,
                    first,
                ));
                return Err(e);
            },
        }
        let r = self.layout_manager.switch_data(
            String::from_str("default"),
            &mut self.extension_manager,
            read_layout,
            write_layout,
        );
        assert(switch_outcome(
            "default"@,
            read_profile,
            write_profile,
            old(self).profile_manager.data,
            self.profile_manager.data,
            old(self).extension_manager.infos(),
            between,
            first,
        ));
        r
    }

    pub fn get_extension_manager(&self) -> (m: &ExtensionManager<E>)
        ensures
            *m == self.extension_manager,
    {
        &self.extension_manager
    }

    pub fn get_profile_manager(&self) -> (m: &ExtensionDataManager<OmniverlayProfile>)
        ensures
            *m == self.profile_manager,
    {
        &self.profile_manager
    }

    pub fn get_layout_manager(&self) -> (m: &ExtensionDataManager<OmniverlayLayout>)
        ensures
            *m == self.layout_manager,
    {
        &self.layout_manager
    }
}

} // verus!
