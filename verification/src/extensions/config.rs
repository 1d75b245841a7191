//! Typed configuration of an extension and the comparison of two
//! configurations by shape.

use crate::errors::{OmniverlayError, OmniverlayErrorView, OmniverlayResult};
use crate::utils::name_map::{lemma_contains, NameMap};
use crate::utils::text::same_text;
use vstd::prelude::*;
use vstd::string::StringExecFns;

verus! {

/// A choice among named alternatives.
#[derive(Debug)]
pub struct ConfigEnum {
    pub name: String,
    pub current: String,
    pub values: Vec<String>,
}

pub struct ConfigEnumView {
    pub name: Seq<char>,
    pub current: Seq<char>,
    pub values: Seq<Seq<char>>,
}

/// The characters of each string of a sequence.
pub open spec fn texts(v: Seq<String>) -> Seq<Seq<char>> {
    v.map_values(|s: String| s@)
}

impl View for ConfigEnum {
    type V = ConfigEnumView;

    open spec fn view(&self) -> ConfigEnumView {
        ConfigEnumView { name: self.name@, current: self.current@, values: texts(self.values@) }
    }
}

/// Copies a vector of strings.
pub fn clone_texts(v: &Vec<String>) -> (r: Vec<String>)
    ensures
        texts(r@) == texts(v@),
{
    let mut out: Vec<String> = Vec::new();
    let mut i: usize = 0;
    while i < v.len()
        invariant
            0 <= i <= v.len(),
            out.len() == i,
            forall|j: int| 0 <= j < i ==> (#[trigger] out@[j])@ == v@[j]@,
        decreases v.len() - i,
    {
        out.push(v[i].clone());
        i += 1;
    }
    assert(texts(out@) =~= texts(v@));
    out
}

impl ConfigEnum {
    pub fn new(name: String, current: String, values: Vec<String>) -> (e: Self)
        ensures
            e.name == name,
            e.current == current,
            e.values == values,
    {
        Self { name, current, values }
    }
}

impl Clone for ConfigEnum {
    fn clone(&self) -> (r: Self)
        ensures
            r@ == self@,
    {
        ConfigEnum {
            name: self.name.clone(),
            current: self.current.clone(),
            values: clone_texts(&self.values),
        }
    }
}

/// A configuration value, tagged by its type. A float is held as the bit
/// pattern of its IEEE 754 double.
#[derive(Debug)]
pub enum ConfigValueType {
    String(String),
    Float(u64),
    Int(i64),
    Bool(bool),
    List(Vec<ConfigValueType>),
    Enum(ConfigEnum),
    Path(String),
}

pub enum ConfigValueTypeView {
    String(Seq<char>),
    Float(u64),
    Int(i64),
    Bool(bool),
    List(Seq<ConfigValueTypeView>),
    Enum(ConfigEnumView),
    Path(Seq<char>),
}

/// The mathematical value that a configuration value stands for.
pub open spec fn value_type_view(t: ConfigValueType) -> ConfigValueTypeView
    decreases t,
{
    match t {
        ConfigValueType::String(s) => ConfigValueTypeView::String(s@),
        ConfigValueType::Float(bits) => ConfigValueTypeView::Float(bits),
        ConfigValueType::Int(i) => ConfigValueTypeView::Int(i),
        ConfigValueType::Bool(b) => ConfigValueTypeView::Bool(b),
        ConfigValueType::List(items) => ConfigValueTypeView::List(
            Seq::new(
                items.len() as nat,
                |i: int|
                    if 0 <= i < items.len() {
                        value_type_view(items[i])
                    } else {
                        ConfigValueTypeView::Bool(false)
                    },
            ),
        ),
        ConfigValueType::Enum(e) => ConfigValueTypeView::Enum(e@),
        ConfigValueType::Path(p) => ConfigValueTypeView::Path(p@),
    }
}

impl View for ConfigValueType {
    type V = ConfigValueTypeView;

    open spec fn view(&self) -> ConfigValueTypeView {
        value_type_view(*self)
    }
}

/// The view of a list is the list of its items' views.
pub proof fn lemma_list_view(items: Vec<ConfigValueType>)
    ensures
        ConfigValueType::List(items)@ is List,
        ConfigValueType::List(items)@->List_0.len() == items.len(),
        forall|j: int|
            0 <= j < items.len() ==> ConfigValueType::List(items)@->List_0[j] == (
            #[trigger] items[j])@,
{
}

/// Copies a configuration value, lists item by item.
pub fn clone_value_type(t: &ConfigValueType) -> (r: ConfigValueType)
    ensures
        r@ == t@,
    decreases t,
{
    match t {
        ConfigValueType::String(s) => ConfigValueType::String(s.clone()),
        ConfigValueType::Float(bits) => ConfigValueType::Float(*bits),
        ConfigValueType::Int(i) => ConfigValueType::Int(*i),
        ConfigValueType::Bool(b) => ConfigValueType::Bool(*b),
        ConfigValueType::List(items) => {
            let mut out: Vec<ConfigValueType> = Vec::new();
            let mut i: usize = 0;
            while i < items.len()
                invariant
                    0 <= i <= items.len(),
                    *t is List,
                    t->List_0 == *items,
                    out.len() == i,
                    forall|j: int| 0 <= j < i ==> (#[trigger] out@[j])@ == items@[j]@,
                decreases items.len() - i,
            {
                let item = clone_value_type(&items[i]);
                out.push(item);
                i += 1;
            }
            proof {
                lemma_list_view(*items);
                lemma_list_view(out);
                assert(ConfigValueType::List(out)@->List_0 =~= t@->List_0);
            }
            ConfigValueType::List(out)
        },
        ConfigValueType::Enum(e) => ConfigValueType::Enum(e.clone()),
        ConfigValueType::Path(p) => ConfigValueType::Path(p.clone()),
    }
}

impl Clone for ConfigValueType {
    fn clone(&self) -> (r: Self)
        ensures
            r@ == self@,
    {
        clone_value_type(self)
    }
}

/// Two values have the same type: the same variant; for lists, the same
/// length and items of the same type, place by place; for enums, the same
/// name and the same set of allowed values. What the values currently hold
/// does not count.
pub open spec fn type_compatible(a: ConfigValueTypeView, b: ConfigValueTypeView) -> bool
    decreases a,
{
    match a {
        ConfigValueTypeView::String(_) => b is String,
        ConfigValueTypeView::Float(_) => b is Float,
        ConfigValueTypeView::Int(_) => b is Int,
        ConfigValueTypeView::Bool(_) => b is Bool,
        ConfigValueTypeView::List(x) => b is List && x.len() == b->List_0.len() && forall|i: int|
            0 <= i < x.len() ==> type_compatible(#[trigger] x[i], b->List_0[i]),
        ConfigValueTypeView::Enum(e) => b is Enum && e.name == b->Enum_0.name
            && e.values.to_set() == b->Enum_0.values.to_set(),
        ConfigValueTypeView::Path(_) => b is Path,
    }
}

/// Every value has the type it has.
pub proof fn lemma_type_compatible_reflexive(a: ConfigValueTypeView)
    ensures
        type_compatible(a, a),
    decreases a,
{
    match a {
        ConfigValueTypeView::List(x) => {
            assert forall|i: int| 0 <= i < x.len() implies type_compatible(
                #[trigger] x[i],
                a->List_0[i],
            ) by {
                lemma_type_compatible_reflexive(x[i]);
            }
        },
        _ => {},
    }
}

/// Having the same type does not depend on the order of the two values.
pub proof fn lemma_type_compatible_symmetric(a: ConfigValueTypeView, b: ConfigValueTypeView)
    ensures
        type_compatible(a, b) == type_compatible(b, a),
    decreases a,
{
    match a {
        ConfigValueTypeView::List(x) => {
            if b is List && x.len() == b->List_0.len() {
                let y = b->List_0;
                assert forall|i: int| 0 <= i < x.len() implies type_compatible(x[i], y[i])
                    == type_compatible(y[i], x[i]) by {
                    lemma_type_compatible_symmetric(x[i], y[i]);
                }
                if type_compatible(a, b) {
                    assert forall|i: int| 0 <= i < y.len() implies type_compatible(
                        #[trigger] y[i],
                        a->List_0[i],
                    ) by {
                        assert(type_compatible(x[i], y[i]));
                    }
                }
                if type_compatible(b, a) {
                    assert forall|i: int| 0 <= i < x.len() implies type_compatible(
                        #[trigger] x[i],
                        b->List_0[i],
                    ) by {
                        assert(type_compatible(y[i], x[i]));
                    }
                }
            }
        },
        _ => {},
    }
}

/// Whether `v` holds a string with the characters of `s`.
pub fn contains_text(v: &Vec<String>, s: &str) -> (r: bool)
    ensures
        r == texts(v@).contains(s@),
{
    let mut i: usize = 0;
    while i < v.len()
        invariant
            0 <= i <= v.len(),
            forall|j: int| 0 <= j < i ==> (#[trigger] texts(v@)[j]) != s@,
        decreases v.len() - i,
    {
        if same_text(v[i].as_str(), s) {
            assert(texts(v@)[i as int] == s@);
            return true;
        }
        i += 1;
    }
    false
}

/// Whether every string of `a` occurs in `b`.
pub fn all_texts_in(a: &Vec<String>, b: &Vec<String>) -> (r: bool)
    ensures
        r == texts(a@).to_set().subset_of(texts(b@).to_set()),
{
    let mut i: usize = 0;
    while i < a.len()
        invariant
            0 <= i <= a.len(),
            forall|j: int| 0 <= j < i ==> texts(b@).contains(#[trigger] texts(a@)[j]),
        decreases a.len() - i,
    {
        if !contains_text(b, a[i].as_str()) {
            assert(texts(a@).to_set().contains(texts(a@)[i as int]));
            return false;
        }
        i += 1;
    }
    true
}

/// Whether two lists of allowed values hold the same strings, in any order
/// and any number of times.
pub fn same_allowed_values(a: &Vec<String>, b: &Vec<String>) -> (r: bool)
    ensures
        r == (texts(a@).to_set() == texts(b@).to_set()),
{
    let r = all_texts_in(a, b) && all_texts_in(b, a);
    assert(r == (texts(a@).to_set() =~= texts(b@).to_set()));
    r
}

/// A configuration value with the text that describes it.
#[derive(Debug)]
pub struct ConfigValue {
    pub description: String,
    pub value: ConfigValueType,
}

pub struct ConfigValueView {
    pub description: Seq<char>,
    pub value: ConfigValueTypeView,
}

impl View for ConfigValue {
    type V = ConfigValueView;

    open spec fn view(&self) -> ConfigValueView {
        ConfigValueView { description: self.description@, value: self.value@ }
    }
}

impl ConfigValue {
    pub fn new(description: String, value: ConfigValueType) -> (v: Self)
        ensures
            v.description == description,
            v.value == value,
    {
        Self { description, value }
    }
}

impl Clone for ConfigValue {
    fn clone(&self) -> (r: Self)
        ensures
            r@ == self@,
    {
        ConfigValue { description: self.description.clone(), value: self.value.clone() }
    }
}

/// The views of the values of a map.
pub open spec fn values_view(m: Map<Seq<char>, ConfigValue>) -> Map<Seq<char>, ConfigValueView> {
    m.map_values(|v: ConfigValue| v@)
}

/// A named group of configuration values, each under a name of its own.
#[derive(Debug)]
pub struct ConfigCategory {
    pub name: String,
    pub values: NameMap<ConfigValue>,
}

pub struct ConfigCategoryView {
    pub name: Seq<char>,
    pub values: Map<Seq<char>, ConfigValueView>,
}

impl View for ConfigCategory {
    type V = ConfigCategoryView;

    open spec fn view(&self) -> ConfigCategoryView {
        ConfigCategoryView { name: self.name@, values: values_view(self.values@) }
    }
}

/// A copy of a map of values holds the same names and equal values.
pub proof fn lemma_values_cloned(a: NameMap<ConfigValue>, b: NameMap<ConfigValue>)
    requires
        a.wf(),
        b.wf(),
        b.entries().len() == a.entries().len(),
        forall|i: int|
            0 <= i < a.entries().len() ==> (#[trigger] b.entries()[i]).0 == a.entries()[i].0
                && a.entries()[i].1@ == b.entries()[i].1@,
    ensures
        values_view(b@) == values_view(a@),
{
    assert forall|k: Seq<char>| a@.contains_key(k) == b@.contains_key(k) by {
        lemma_contains(a.entries(), k);
        lemma_contains(b.entries(), k);
        if a@.contains_key(k) {
            let i = choose|i: int| 0 <= i < a.entries().len() && #[trigger] a.entries()[i].0 == k;
            assert(b.entries()[i].0 == k);
        }
        if b@.contains_key(k) {
            let i = choose|i: int| 0 <= i < b.entries().len() && #[trigger] b.entries()[i].0 == k;
            assert(a.entries()[i].0 == k);
        }
    }
    assert forall|k: Seq<char>| a@.contains_key(k) implies a@[k]@ == b@[k]@ by {
        lemma_contains(a.entries(), k);
        let i = choose|i: int| 0 <= i < a.entries().len() && #[trigger] a.entries()[i].0 == k;
        assert(b.entries()[i].0 == k);
        crate::utils::name_map::lemma_entry_at(a.entries(), i);
        crate::utils::name_map::lemma_entry_at(b.entries(), i);
    }
    assert(values_view(b@) =~= values_view(a@));
}

impl ConfigCategory {
    pub fn new(name: String) -> (c: Self)
        ensures
            c@ == (ConfigCategoryView { name: name@, values: Map::empty() }),
    {
        let c = Self { name, values: NameMap::new() };
        assert(values_view(c.values@) =~= Map::empty());
        c
    }

    /// Puts `value` under `name`, in place of what the name held before.
    pub fn add_value(&mut self, name: String, value: ConfigValue)
        ensures
            final(self)@ == (ConfigCategoryView {
                name: old(self)@.name,
                values: old(self)@.values.insert(name@, value@),
            }),
    {
        self.values.insert(name, value);
        assert(values_view(self.values@) =~= values_view(old(self).values@).insert(name@, value@));
    }

    pub fn get_value(&self, name: &str) -> (r: Option<&ConfigValue>)
        ensures
            match r {
                Some(v) => self@.values.contains_key(name@) && v@ == self@.values[name@],
                None => !self@.values.contains_key(name@),
            },
    {
        self.values.get(name)
    }
}

impl Clone for ConfigCategory {
    fn clone(&self) -> (r: Self)
        ensures
            r@ == self@,
    {
        let values = self.values.clone();
        proof {
            use_type_invariant(&self.values);
            use_type_invariant(&values);
            lemma_values_cloned(self.values, values);
        }
        ConfigCategory { name: self.name.clone(), values }
    }
}

/// Collects the values of a category one by one.
pub struct ConfigCategoryBuilder {
    name: String,
    values: NameMap<ConfigValue>,
}

impl ConfigCategoryBuilder {
    /// What `build` would return now.
    pub closed spec fn built(&self) -> ConfigCategoryView {
        ConfigCategoryView { name: self.name@, values: values_view(self.values@) }
    }

    pub fn new(name: String) -> (b: Self)
        ensures
            b.built() == (ConfigCategoryView { name: name@, values: Map::empty() }),
    {
        let b = Self { name, values: NameMap::new() };
        assert(values_view(b.values@) =~= Map::empty());
        b
    }

    /// Adds a value. A name that was added before takes the new value.
    pub fn add_value(self, name: String, value: ConfigValue) -> (b: Self)
        ensures
            b.built() == (ConfigCategoryView {
                name: self.built().name,
                values: self.built().values.insert(name@, value@),
            }),
    {
        let mut b = self;
        b.values.insert(name, value);
        assert(values_view(b.values@) =~= values_view(self.values@).insert(name@, value@));
        b
    }

    pub fn build(self) -> (c: ConfigCategory)
        ensures
            c@ == self.built(),
    {
        ConfigCategory { name: self.name, values: self.values }
    }
}

/// Two categories have the same shape: the same value names and, under
/// each name, values of the same type.
pub open spec fn category_compatible(a: ConfigCategoryView, b: ConfigCategoryView) -> bool {
    &&& a.values.dom() == b.values.dom()
    &&& forall|k: Seq<char>| #[trigger]
        a.values.dom().contains(k) ==> type_compatible(a.values[k].value, b.values[k].value)
}

/// Some category of `cats` is called `name`.
pub open spec fn has_category(cats: Seq<ConfigCategoryView>, name: Seq<char>) -> bool {
    exists|i: int| 0 <= i < cats.len() && #[trigger] cats[i].name == name
}

/// `i` is the place of the last category of `cats` called `name`.
pub open spec fn is_last_named(cats: Seq<ConfigCategoryView>, i: int, name: Seq<char>) -> bool {
    &&& 0 <= i < cats.len()
    &&& cats[i].name == name
    &&& forall|j: int| i < j < cats.len() ==> (#[trigger] cats[j]).name != name
}

/// `i` is the place of the first category of `cats` called `name`.
pub open spec fn is_first_named(cats: Seq<ConfigCategoryView>, i: int, name: Seq<char>) -> bool {
    &&& 0 <= i < cats.len()
    &&& cats[i].name == name
    &&& forall|j: int| 0 <= j < i ==> (#[trigger] cats[j]).name != name
}

/// The categories by name. Of several categories with one name the last counts.
pub open spec fn category_map(cats: Seq<ConfigCategoryView>) -> Map<Seq<char>, ConfigCategoryView> {
    Map::new(
        |n: Seq<char>| has_category(cats, n),
        |n: Seq<char>| cats[choose|i: int| is_last_named(cats, i, n)],
    )
}

/// Two configurations have the same structure: the same category names and,
/// under each name, categories of the same shape.
pub open spec fn structure_matches(a: ExtensionConfigView, b: ExtensionConfigView) -> bool {
    let ma = category_map(a.categories);
    let mb = category_map(b.categories);
    &&& ma.dom() == mb.dom()
    &&& forall|n: Seq<char>| #[trigger] ma.dom().contains(n) ==> category_compatible(ma[n], mb[n])
}

/// The last category of a given name is the one that the name maps to.
pub proof fn lemma_category_map_at(cats: Seq<ConfigCategoryView>, i: int, name: Seq<char>)
    requires
        is_last_named(cats, i, name),
    ensures
        category_map(cats).dom().contains(name),
        category_map(cats)[name] == cats[i],
{
    let c = choose|c: int| is_last_named(cats, c, name);
    if c < i {
        assert(cats[i].name != name);
    } else if i < c {
        assert(cats[c].name != name);
    }
}

/// The configuration of an extension: its categories, in order.
#[derive(Debug)]
pub struct ExtensionConfig {
    pub categories: Vec<ConfigCategory>,
}

pub struct ExtensionConfigView {
    pub categories: Seq<ConfigCategoryView>,
}

/// The views of a sequence of categories.
pub open spec fn categories_view(cats: Seq<ConfigCategory>) -> Seq<ConfigCategoryView> {
    cats.map_values(|c: ConfigCategory| c@)
}

impl View for ExtensionConfig {
    type V = ExtensionConfigView;

    open spec fn view(&self) -> ExtensionConfigView {
        ExtensionConfigView { categories: categories_view(self.categories@) }
    }
}

/// The place of the last category called `name`, if there is one.
pub fn find_last_category(cats: &Vec<ConfigCategory>, name: &str) -> (r: Option<usize>)
    ensures
        match r {
            Some(i) => is_last_named(categories_view(cats@), i as int, name@),
            None => !has_category(categories_view(cats@), name@),
        },
{
    let mut i: usize = cats.len();
    while i > 0
        invariant
            0 <= i <= cats.len(),
            forall|j: int| i <= j < cats.len() ==> (#[trigger] categories_view(cats@)[j]).name != name@,
        decreases i,
    {
        i -= 1;
        if same_text(cats[i].name.as_str(), name) {
            return Some(i);
        }
    }
    None
}

impl ExtensionConfig {
    /// The first category, in order, that holds a value called `name`, with that value.
    pub fn get_value(&self, name: &str) -> (r: Option<(&ConfigCategory, &ConfigValue)>)
        ensures
            match r {
                Some((category, value)) => exists|i: int|
                    0 <= i < self@.categories.len() && #[trigger] self@.categories[i] == category@
                        && category@.values.contains_key(name@) && category@.values[name@] == value@
                        && forall|j: int|
                        0 <= j < i ==> !(#[trigger] self@.categories[j]).values.contains_key(name@),
                None => forall|j: int|
                    0 <= j < self@.categories.len() ==> !(#[trigger] self@.categories[j]).values.contains_key(
                        name@,
                    ),
            },
    {
        let mut i: usize = 0;
        while i < self.categories.len()
            invariant
                0 <= i <= self.categories.len(),
                forall|j: int|
                    0 <= j < i ==> !(#[trigger] self@.categories[j]).values.contains_key(name@),
            decreases self.categories.len() - i,
        {
            let category = &self.categories[i];
            match category.get_value(name) {
                Some(value) => {
                    assert(self@.categories[i as int] == category@);
                    return Some((category, value));
                },
                None => {},
            }
            i += 1;
        }
        None
    }

    /// The first category called `name`.
    pub fn get_category(&self, name: &str) -> (r: Option<&ConfigCategory>)
        ensures
            match r {
                Some(category) => exists|i: int|
                    is_first_named(self@.categories, i, name@) && #[trigger] self@.categories[i]
                        == category@,
                None => !has_category(self@.categories, name@),
            },
    {
        let mut i: usize = 0;
        while i < self.categories.len()
            invariant
                0 <= i <= self.categories.len(),
                forall|j: int| 0 <= j < i ==> (#[trigger] self@.categories[j]).name != name@,
            decreases self.categories.len() - i,
        {
            if same_text(self.categories[i].name.as_str(), name) {
                assert(is_first_named(self@.categories, i as int, name@));
                return Some(&self.categories[i]);
            }
            i += 1;
        }
        None
    }

    /// Whether `other` has the structure of `self`: the same category names,
    /// the same value names in each category, and values of the same types.
    /// What the values currently hold does not count.
    pub fn match_structure(&self, other: &Self) -> (r: bool)
        ensures
            r == structure_matches(self@, other@),
    {
        let ghost ma = category_map(self@.categories);
        let ghost mb = category_map(other@.categories);
        let mut i: usize = 0;
        while i < self.categories.len()
            invariant
                0 <= i <= self.categories.len(),
                ma == category_map(self@.categories),
                mb == category_map(other@.categories),
                forall|j: int|
                    0 <= j < i ==> mb.dom().contains((#[trigger] self@.categories[j]).name)
                        && category_compatible(
                        ma[self@.categories[j].name],
                        mb[self@.categories[j].name],
                    ),
            decreases self.categories.len() - i,
        {
            let name = self.categories[i].name.as_str();
            assert(self@.categories[i as int].name == name@);
            let mine = find_last_category(&self.categories, name);
            let theirs = find_last_category(&other.categories, name);
            match (mine, theirs) {
                (Some(a), Some(b)) => {
                    proof {
                        lemma_category_map_at(self@.categories, a as int, name@);
                        lemma_category_map_at(other@.categories, b as int, name@);
                    }
                    if !Self::category_structure_matches(&self.categories[a], &other.categories[b]) {
                        return false;
                    }
                },
                (Some(a), None) => {
                    proof {
                        lemma_category_map_at(self@.categories, a as int, name@);
                        assert(!mb.dom().contains(name@));
                    }
                    return false;
                },
                (None, _) => {
                    assert(false);
                },
            }
            i += 1;
        }
        let mut k: usize = 0;
        while k < other.categories.len()
            invariant
                0 <= k <= other.categories.len(),
                ma == category_map(self@.categories),
                mb == category_map(other@.categories),
                forall|j: int| 0 <= j < k ==> ma.dom().contains((#[trigger] other@.categories[j]).name),
            decreases other.categories.len() - k,
        {
            let name = other.categories[k].name.as_str();
            assert(other@.categories[k as int].name == name@);
            if find_last_category(&self.categories, name).is_none() {
                assert(mb.dom().contains(name@));
                return false;
            }
            k += 1;
        }
        proof {
            assert forall|n: Seq<char>| ma.dom().contains(n) == mb.dom().contains(n) by {
                if ma.dom().contains(n) {
                    let j = choose|j: int|
                        0 <= j < self@.categories.len() && #[trigger] self@.categories[j].name == n;
                    assert(mb.dom().contains(self@.categories[j].name));
                }
                if mb.dom().contains(n) {
                    let j = choose|j: int|
                        0 <= j < other@.categories.len() && #[trigger] other@.categories[j].name == n;
                    assert(ma.dom().contains(other@.categories[j].name));
                }
            }
            assert(ma.dom() =~= mb.dom());
            assert forall|n: Seq<char>| #[trigger] ma.dom().contains(n) implies category_compatible(
                ma[n],
                mb[n],
            ) by {
                let j = choose|j: int|
                    0 <= j < self@.categories.len() && #[trigger] self@.categories[j].name == n;
                assert(mb.dom().contains(self@.categories[j].name));
            }
        }
        true
    }

    /// Whether two categories hold the same value names, with values of the same types.
    pub fn category_structure_matches(cat1: &ConfigCategory, cat2: &ConfigCategory) -> (r: bool)
        ensures
            r == category_compatible(cat1@, cat2@),
    {
        proof {
            use_type_invariant(&cat1.values);
            use_type_invariant(&cat2.values);
        }
        let mut i: usize = 0;
        while i < cat1.values.len()
            invariant
                0 <= i <= cat1.values.entries().len(),
                cat1.values.wf(),
                forall|j: int|
                    0 <= j < i ==> cat2@.values.dom().contains((#[trigger] cat1.values.entries()[j]).0)
                        && type_compatible(
                        cat1@.values[cat1.values.entries()[j].0].value,
                        cat2@.values[cat1.values.entries()[j].0].value,
                    ),
            decreases cat1.values.entries().len() - i,
        {
            let key = cat1.values.name_at(i);
            let value = cat1.values.value_at(i);
            match cat2.values.get(key.as_str()) {
                Some(other_value) => {
                    if !Self::value_type_matches(&value.value, &other_value.value) {
                        assert(cat1@.values.dom().contains(key@));
                        return false;
                    }
                },
                None => {
                    assert(cat1@.values.dom().contains(key@));
                    assert(!cat2@.values.dom().contains(key@));
                    return false;
                },
            }
            i += 1;
        }
        let mut k: usize = 0;
        while k < cat2.values.len()
            invariant
                0 <= k <= cat2.values.entries().len(),
                forall|j: int|
                    0 <= j < k ==> cat1@.values.dom().contains((#[trigger] cat2.values.entries()[j]).0),
            decreases cat2.values.entries().len() - k,
        {
            let key = cat2.values.name_at(k);
            if !cat1.values.contains_key(key.as_str()) {
                assert(cat2@.values.dom().contains(key@));
                assert(!cat1@.values.dom().contains(key@));
                return false;
            }
            k += 1;
        }
        proof {
            assert forall|n: Seq<char>| cat1@.values.dom().contains(n) == cat2@.values.dom().contains(
                n,
            ) by {
                lemma_contains(cat1.values.entries(), n);
                lemma_contains(cat2.values.entries(), n);
                if cat1@.values.dom().contains(n) {
                    let j = choose|j: int|
                        0 <= j < cat1.values.entries().len() && #[trigger] cat1.values.entries()[j].0
                            == n;
                    assert(cat2@.values.dom().contains(cat1.values.entries()[j].0));
                }
                if cat2@.values.dom().contains(n) {
                    let j = choose|j: int|
                        0 <= j < cat2.values.entries().len() && #[trigger] cat2.values.entries()[j].0
                            == n;
                    assert(cat1@.values.dom().contains(cat2.values.entries()[j].0));
                }
            }
            assert(cat1@.values.dom() =~= cat2@.values.dom());
            assert forall|n: Seq<char>| #[trigger]
                cat1@.values.dom().contains(n) implies type_compatible(
                cat1@.values[n].value,
                cat2@.values[n].value,
            ) by {
                lemma_contains(cat1.values.entries(), n);
                let j = choose|j: int|
                    0 <= j < cat1.values.entries().len() && #[trigger] cat1.values.entries()[j].0 == n;
                assert(cat2@.values.dom().contains(cat1.values.entries()[j].0));
            }
        }
        true
    }

    /// Whether `value2` has the type of `value1`.
    pub fn value_type_matches(value1: &ConfigValueType, value2: &ConfigValueType) -> (r: bool)
        ensures
            r == type_compatible(value1@, value2@),
        decreases value1,
    {
        match (value1, value2) {
            (ConfigValueType::String(_), ConfigValueType::String(_)) => true,
            (ConfigValueType::Float(_), ConfigValueType::Float(_)) => true,
            (ConfigValueType::Int(_), ConfigValueType::Int(_)) => true,
            (ConfigValueType::Bool(_), ConfigValueType::Bool(_)) => true,
            (ConfigValueType::List(list1), ConfigValueType::List(list2)) => {
                proof {
                    lemma_list_view(*list1);
                    lemma_list_view(*list2);
                }
                if list1.len() != list2.len() {
                    return false;
                }
                let mut i: usize = 0;
                while i < list1.len()
                    invariant
                        0 <= i <= list1.len(),
                        list1.len() == list2.len(),
                        *value1 is List,
                        *value2 is List,
                        value1->List_0 == *list1,
                        value2->List_0 == *list2,
                        forall|j: int|
                            0 <= j < i ==> type_compatible((#[trigger] list1[j])@, list2[j]@),
                    decreases list1.len() - i,
                {
                    if !Self::value_type_matches(&list1[i], &list2[i]) {
                        proof {
                            lemma_list_view(*list1);
                            lemma_list_view(*list2);
                            assert(!type_compatible(
                                value1@->List_0[i as int],
                                value2@->List_0[i as int],
                            ));
                        }
                        return false;
                    }
                    i += 1;
                }
                proof {
                    lemma_list_view(*list1);
                    lemma_list_view(*list2);
                    assert forall|j: int| 0 <= j < value1@->List_0.len() implies type_compatible(
                        #[trigger] value1@->List_0[j],
                        value2@->List_0[j],
                    ) by {
                        assert(type_compatible(list1[j]@, list2[j]@));
                    }
                }
                true
            },
            (ConfigValueType::Enum(enum1), ConfigValueType::Enum(enum2)) => {
                enum1.name == enum2.name && same_allowed_values(&enum1.values, &enum2.values)
            },
            (ConfigValueType::Path(_), ConfigValueType::Path(_)) => true,
            _ => false,
        }
    }
}

impl Clone for ExtensionConfig {
    fn clone(&self) -> (r: Self)
        ensures
            r@ == self@,
    {
        let mut out: Vec<ConfigCategory> = Vec::new();
        let mut i: usize = 0;
        while i < self.categories.len()
            invariant
                0 <= i <= self.categories.len(),
                out.len() == i,
                forall|j: int| 0 <= j < i ==> (#[trigger] out@[j])@ == self.categories@[j]@,
            decreases self.categories.len() - i,
        {
            out.push(self.categories[i].clone());
            i += 1;
        }
        assert(categories_view(out@) =~= categories_view(self.categories@));
        ExtensionConfig { categories: out }
    }
}

/// Every category has its own shape.
pub proof fn lemma_category_compatible_reflexive(a: ConfigCategoryView)
    ensures
        category_compatible(a, a),
{
    assert forall|k: Seq<char>| #[trigger] a.values.dom().contains(k) implies type_compatible(
        a.values[k].value,
        a.values[k].value,
    ) by {
        lemma_type_compatible_reflexive(a.values[k].value);
    }
}

/// Having the same shape does not depend on the order of the two categories.
pub proof fn lemma_category_compatible_symmetric(a: ConfigCategoryView, b: ConfigCategoryView)
    ensures
        category_compatible(a, b) == category_compatible(b, a),
{
    if a.values.dom() == b.values.dom() {
        assert forall|k: Seq<char>|
            type_compatible(a.values[k].value, b.values[k].value) == type_compatible(
                b.values[k].value,
                a.values[k].value,
            ) by {
            lemma_type_compatible_symmetric(a.values[k].value, b.values[k].value);
        }
    }
}

/// Every configuration has the structure of itself.
pub proof fn lemma_match_structure_reflexive(a: ExtensionConfigView)
    ensures
        structure_matches(a, a),
{
    let m = category_map(a.categories);
    assert forall|n: Seq<char>| #[trigger] m.dom().contains(n) implies category_compatible(
        m[n],
        m[n],
    ) by {
        lemma_category_compatible_reflexive(m[n]);
    }
}

/// Whether two configurations have the same structure does not depend on
/// which of them is asked.
pub proof fn lemma_match_structure_symmetric(a: ExtensionConfigView, b: ExtensionConfigView)
    ensures
        structure_matches(a, b) == structure_matches(b, a),
{
    let ma = category_map(a.categories);
    let mb = category_map(b.categories);
    if ma.dom() == mb.dom() {
        assert forall|n: Seq<char>|
            category_compatible(ma[n], mb[n]) == category_compatible(mb[n], ma[n]) by {
            lemma_category_compatible_symmetric(ma[n], mb[n]);
        }
    }
}

/// No two categories carry the same name.
pub open spec fn distinct_categories(cats: Seq<ConfigCategoryView>) -> bool {
    forall|i: int, j: int|
        0 <= i < j < cats.len() ==> (#[trigger] cats[i]).name != (#[trigger] cats[j]).name
}

/// The place of a category of `cats` called `name`.
pub open spec fn category_index(cats: Seq<ConfigCategoryView>, name: Seq<char>) -> int {
    choose|i: int| 0 <= i < cats.len() && (#[trigger] cats[i]).name == name
}

/// The categories after `category` has been added: it takes the place of
/// the category of its name, or comes last where the name is new. The
/// other categories stay where they are.
pub open spec fn with_category(
    cats: Seq<ConfigCategoryView>,
    category: ConfigCategoryView,
) -> Seq<ConfigCategoryView> {
    if has_category(cats, category.name) {
        cats.update(category_index(cats, category.name), category)
    } else {
        cats.push(category)
    }
}

/// Adding a category to categories of distinct names leaves the names
/// distinct, and the category added is the one found under its name.
pub proof fn lemma_with_category(cats: Seq<ConfigCategoryView>, category: ConfigCategoryView)
    requires
        distinct_categories(cats),
    ensures
        distinct_categories(with_category(cats, category)),
        category_map(with_category(cats, category)).dom().contains(category.name),
        category_map(with_category(cats, category))[category.name] == category,
{
    let after = with_category(cats, category);
    if has_category(cats, category.name) {
        let at = category_index(cats, category.name);
        assert forall|i: int, j: int| 0 <= i < j < after.len() implies (#[trigger] after[i]).name != (
        #[trigger] after[j]).name by {
            assert(cats[i].name != cats[j].name);
        }
        assert(is_last_named(after, at, category.name)) by {
            assert forall|j: int| at < j < after.len() implies (#[trigger] after[j]).name
                != category.name by {
                assert(cats[at].name != cats[j].name);
            }
        }
        lemma_category_map_at(after, at, category.name);
    } else {
        assert forall|i: int, j: int| 0 <= i < j < after.len() implies (#[trigger] after[i]).name != (
        #[trigger] after[j]).name by {
            if j == cats.len() {
                assert(cats[i].name != category.name);
            } else {
                assert(cats[i].name != cats[j].name);
            }
        }
        lemma_category_map_at(after, cats.len() as int, category.name);
    }
}

/// Among categories of distinct names, the first of a name is the last of
/// that name: looking a category up by its name gives one answer.
pub proof fn lemma_distinct_first_is_last(cats: Seq<ConfigCategoryView>, i: int, name: Seq<char>)
    requires
        distinct_categories(cats),
    ensures
        is_first_named(cats, i, name) == is_last_named(cats, i, name),
{
    if 0 <= i < cats.len() && cats[i].name == name {
        assert forall|j: int| 0 <= j < i implies (#[trigger] cats[j]).name != name by {
            assert(cats[j].name != cats[i].name);
        }
        assert forall|j: int| i < j < cats.len() implies (#[trigger] cats[j]).name != name by {
            assert(cats[i].name != cats[j].name);
        }
    }
}

/// Collects the categories of a configuration, each name once.
pub struct ExtensionConfigBuilder {
    categories: Vec<ConfigCategory>,
}

impl ExtensionConfigBuilder {
    /// The categories that `build` would put into the configuration now.
    pub closed spec fn built(&self) -> Seq<ConfigCategoryView> {
        categories_view(self.categories@)
    }

    /// Every name is held once.
    #[verifier::type_invariant]
    pub open spec fn wf(&self) -> bool {
        distinct_categories(self.built())
    }

    pub fn new() -> (b: Self)
        ensures
            b.built() == Seq::<ConfigCategoryView>::empty(),
    {
        let categories: Vec<ConfigCategory> = Vec::new();
        assert(categories_view(categories@) =~= Seq::<ConfigCategoryView>::empty());
        Self { categories }
    }

    /// Adds a category. A category that was added before under the same
    /// name is overwritten: the new one takes its place. A category of a
    /// new name comes after those added before.
    pub fn add_category(self, category: ConfigCategory) -> (b: Self)
        ensures
            b.built() == with_category(self.built(), category@),
            distinct_categories(b.built()),
    {
        proof {
            use_type_invariant(&self);
            lemma_with_category(self.built(), category@);
        }
        let ghost before = self.built();
        let ghost added = category@;
        let ExtensionConfigBuilder { categories } = self;
        let mut categories = categories;
        match find_last_category(&categories, category.name.as_str()) {
            Some(i) => {
                proof {
                    let at = category_index(before, added.name);
                    if at < i {
                        assert(before[at].name != before[i as int].name);
                    } else if i < at {
                        assert(before[i as int].name != before[at].name);
                    }
                }
                categories.set(i, category);
                assert(categories_view(categories@) =~= before.update(i as int, added));
            },
            None => {
                categories.push(category);
                assert(categories_view(categories@) =~= before.push(added));
            },
        }
        ExtensionConfigBuilder { categories }
    }

    /// The configuration of the categories added, each name once.
    pub fn build(self) -> (c: ExtensionConfig)
        ensures
            c@.categories == self.built(),
            distinct_categories(c@.categories),
    {
        proof {
            use_type_invariant(&self);
        }
        ExtensionConfig { categories: self.categories }
    }
}

/// The views of the configurations of a map.
pub open spec fn configs_view(m: Map<Seq<char>, ExtensionConfig>) -> Map<
    Seq<char>,
    ExtensionConfigView,
> {
    m.map_values(|c: ExtensionConfig| c@)
}

/// Configurations by the name of the extension they belong to.
pub struct ExtensionConfigManager {
    configs: NameMap<ExtensionConfig>,
}

impl View for ExtensionConfigManager {
    type V = Map<Seq<char>, ExtensionConfigView>;

    closed spec fn view(&self) -> Map<Seq<char>, ExtensionConfigView> {
        configs_view(self.configs@)
    }
}

impl ExtensionConfigManager {
    pub fn new() -> (m: Self)
        ensures
            m@ == Map::<Seq<char>, ExtensionConfigView>::empty(),
    {
        let m = Self { configs: NameMap::new() };
        assert(configs_view(m.configs@) =~= Map::empty());
        m
    }

    /// Holds `config` under `name`, in place of what the name held before.
    pub fn register_config(&mut self, name: String, config: ExtensionConfig) -> (r:
        OmniverlayResult<()>)
        ensures
            r is Ok,
            final(self)@ == old(self)@.insert(name@, config@),
    {
        self.configs.insert(name, config);
        assert(configs_view(self.configs@) =~= configs_view(old(self).configs@).insert(
            name@,
            config@,
        ));
        Ok(())
    }

    /// The configuration held under `name`.
    pub fn get_config(&self, name: &str) -> (r: OmniverlayResult<&ExtensionConfig>)
        ensures
            match r {
                Ok(config) => self@.contains_key(name@) && self@[name@] == config@,
                Err(e) => !self@.contains_key(name@) && e@ == OmniverlayErrorView::ConfigNotFound(
                    name@,
                ),
            },
    {
        match self.configs.get(name) {
            Some(config) => Ok(config),
            None => Err(OmniverlayError::ConfigNotFound(String::from_str(name))),
        }
    }
}

} // verus!
