//! The performance monitor, the extension that ships with the overlay.

use crate::extensions::config::{
    has_category, texts, ConfigCategoryBuilder, ConfigCategoryView, ConfigEnum, ConfigEnumView,
    ConfigValue, ConfigValueType, ConfigValueTypeView, ConfigValueView, ExtensionConfig,
    ExtensionConfigBuilder, ExtensionConfigView,
};
use crate::errors::OmniverlayResult;
use crate::extensions::{
    Extension, ExtensionInfo, ExtensionInfoView, ExtensionLayout, ExtensionState,
    ExtensionStateView,
};
use vstd::prelude::*;
use vstd::string::StringExecFns;

verus! {

/// A value with its description.
pub open spec fn described(description: Seq<char>, value: ConfigValueTypeView) -> ConfigValueView {
    ConfigValueView { description: description, value: value }
}

/// The configuration that the performance monitor starts with: a category
/// `General` with a first name, a last name, an age and a flag, and a
/// category `Job` with a grade from `A` to `E`.
pub open spec fn performance_config() -> ExtensionConfigView {
    ExtensionConfigView {
        categories: seq![
            ConfigCategoryView {
                name: "General"@,
                values: map![
                    "first_name"@ => described(
                        "The first name of the person"@,
                        ConfigValueTypeView::String("Jhon"@),
                    ),
                    "last_name"@ => described(
                        "The last name of the person"@,
                        ConfigValueTypeView::String("Doe"@),
                    ),
                    "age"@ => described("The age of the person"@, ConfigValueTypeView::Int(30)),
                    "active"@ => described("Is the person active"@, ConfigValueTypeView::Bool(true)),
                ],
            },
            ConfigCategoryView {
                name: "Job"@,
                values: map![
                    "Grade"@ => described(
                        "The grade of the person"@,
                        ConfigValueTypeView::Enum(
                            ConfigEnumView {
                                name: "grades"@,
                                current: "A"@,
                                values: seq!["A"@, "B"@, "C"@, "D"@, "E"@],
                            },
                        ),
                    ),
                ],
            },
        ],
    }
}

/// The record that the performance monitor starts with: enabled, with its
/// configuration, 200 by 200 in the corner of the screen.
pub open spec fn performance_info() -> ExtensionInfoView {
    ExtensionInfoView {
        name: "Performance"@,
        state: ExtensionStateView { is_enabled: true, config: Some(performance_config()) },
        layout: Some(ExtensionLayout { width: 200, height: 200, x: 0, y: 0 }),
    }
}

/// The grades from `A` to `E`.
fn grades() -> (v: Vec<String>)
    ensures
        texts(v@) == seq!["A"@, "B"@, "C"@, "D"@, "E"@],
{
    let mut v: Vec<String> = Vec::new();
    v.push(String::from_str("A"));
    v.push(String::from_str("B"));
    v.push(String::from_str("C"));
    v.push(String::from_str("D"));
    v.push(String::from_str("E"));
    assert(texts(v@) =~= seq!["A"@, "B"@, "C"@, "D"@, "E"@]);
    v
}

/// Builds the configuration that the performance monitor starts with.
pub fn default_config() -> (config: ExtensionConfig)
    ensures
        config@ == performance_config(),
{
    let general = ConfigCategoryBuilder::new(String::from_str("General")).add_value(
        String::from_str("first_name"),
        ConfigValue::new(
            String::from_str("The first name of the person"),
            ConfigValueType::String(String::from_str("Jhon")),
        ),
    ).add_value(
        String::from_str("last_name"),
        ConfigValue::new(
            String::from_str("The last name of the person"),
            ConfigValueType::String(String::from_str("Doe")),
        ),
    ).add_value(
        String::from_str("age"),
        ConfigValue::new(String::from_str("The age of the person"), ConfigValueType::Int(30)),
    ).add_value(
        String::from_str("active"),
        ConfigValue::new(String::from_str("Is the person active"), ConfigValueType::Bool(true)),
    ).build();
    let job = ConfigCategoryBuilder::new(String::from_str("Job")).add_value(
        String::from_str("Grade"),
        ConfigValue::new(
            String::from_str("The grade of the person"),
            ConfigValueType::Enum(
                ConfigEnum::new(String::from_str("grades"), String::from_str("A"), grades()),
            ),
        ),
    ).build();
    proof {
        reveal_strlit("General");
        reveal_strlit("Job");
        assert("General"@[0] != "Job"@[0]);
    }
    let first = ExtensionConfigBuilder::new().add_category(general);
    proof {
        assert(first.built() =~= seq![general@]);
        assert(!has_category(first.built(), job@.name));
    }
    let config = first.add_category(job).build();
    assert(config@.categories =~= performance_config().categories);
    config
}

/// Builds the record that the performance monitor starts with.
pub fn default_info() -> (info: ExtensionInfo)
    ensures
        info@ == performance_info(),
{
    ExtensionInfo {
        name: String::from_str("Performance"),
        state: ExtensionState { is_enabled: true, config: Some(default_config()) },
        layout: Some(ExtensionLayout { width: 200, height: 200, x: 0, y: 0 }),
    }
}

/// `sysinfo::System`, the handle on the figures of the machine.
#[verifier::external_type_specification]
#[verifier::external_body]
pub struct ExSystem(sysinfo::System);

/// Makes a `sysinfo::System` with `System::new`, which loads nothing yet.
#[verifier::external_body]
fn new_system() -> (system: sysinfo::System) {
    sysinfo::System::new()
}

/// Lets `System::refresh_cpu_all` read the figures of the processors anew.
/// What the handle holds afterwards depends on the machine.
#[verifier::external_body]
fn refresh_cpu(system: &mut sysinfo::System) {
    system.refresh_cpu_all();
}

/// The performance monitor. Switching it on samples the processors.
pub struct PerformanceExtension {
    info: ExtensionInfo,
    system: sysinfo::System,
}

impl PerformanceExtension {
    /// The record that the monitor gives when it is registered.
    pub closed spec fn info(&self) -> ExtensionInfoView {
        self.info@
    }

    /// The monitor with the record and the configuration it starts with.
    pub fn new() -> (monitor: Self)
        ensures
            monitor.info() == performance_info(),
    {
        Self { info: default_info(), system: new_system() }
    }
}

impl Extension for PerformanceExtension {
    fn enable(&mut self) -> (r: OmniverlayResult<()>)
        ensures
            r is Ok,
            final(self).info() == old(self).info(),
    {
        refresh_cpu(&mut self.system);
        Ok(())
    }

    fn disable(&mut self) -> (r: OmniverlayResult<()>)
        ensures
            r is Ok,
            final(self).info() == old(self).info(),
    {
        Ok(())
    }

    fn get_extension_info(&self) -> (r: OmniverlayResult<ExtensionInfo>)
        ensures
            r matches Ok(info) && info@ == self.info(),
    {
        Ok(self.info.clone())
    }
}

} // verus!
