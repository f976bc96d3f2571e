//! Semantic control: elements, their references, snapshots and actions.

use vstd::prelude::*;

use crate::controller;
use crate::controller::ensure_mutation_allowed;
use crate::error;
use crate::error::{error2, error3, ControllerError, ErrorCode, ErrorDetails};
use crate::ieee;
use crate::sort;
use crate::sort::sort_texts;
use crate::text;
use crate::text::{
    all_eq_ignore_ascii_case, any_eq_ignore_ascii_case, contains_text, eq_ignore_ascii_case,
    format_debug, format_wide, is_text, same_text, texts, to_lowercase,
};
use crate::types::{Geometry, ObserveAfter, StateGuard};

verus! {

pub const DEFAULT_MAX_DEPTH: u8 = 8;

pub const DEFAULT_MAX_NODES: usize = 500;

pub const MAX_DEPTH: u8 = 32;

pub const MAX_NODES: usize = 2_000;

pub const DEFAULT_TEXT_LIMIT: usize = 1_024;

pub const MAX_TEXT_LIMIT: usize = 4_096;

/// Whether semantic control is used: where it can be had, never, or always.
#[derive(Debug, Clone, Copy, PartialEq, Eq, Structural)]
pub enum AccessibilityMode {
    Auto,
    Disabled,
    Required,
}

impl Default for AccessibilityMode {
    fn default() -> (mode: Self)
        ensures
            mode == AccessibilityMode::Auto,
    {
        AccessibilityMode::Auto
    }
}

/// Whether semantic control can be had, and why not.
#[derive(Debug)]
pub struct AccessibilityInfo {
    pub available: bool,
    pub generation: u64,
    pub reason: Option<String>,
}

/// Where a snapshot starts.
#[derive(Debug)]
pub enum AccessibilityRoot {
    Desktop,
    Window { window_ref: String },
    Element { element_ref: String },
}

impl Default for AccessibilityRoot {
    fn default() -> (root: Self)
        ensures
            root is Desktop,
    {
        AccessibilityRoot::Desktop
    }
}

/// Which elements are meant. An absent field admits every element.
#[derive(Debug)]
pub struct ElementSelector {
    pub window_ref: Option<String>,
    pub role: Option<String>,
    pub name_contains: Option<String>,
    pub states_all: Vec<String>,
    pub action: Option<String>,
}

impl Default for ElementSelector {
    fn default() -> (selector: Self)
        ensures
            selector.window_ref is None,
            selector.role is None,
            selector.name_contains is None,
            selector.states_all@.len() == 0,
            selector.action is None,
    {
        ElementSelector {
            window_ref: None,
            role: None,
            name_contains: None,
            states_all: Vec::new(),
            action: None,
        }
    }
}

/// Asks for a snapshot.
#[derive(Debug)]
pub struct AccessibilitySnapshotRequest {
    pub root: AccessibilityRoot,
    pub selector: Option<ElementSelector>,
    pub max_depth: u8,
    pub max_nodes: usize,
    pub include_text: bool,
    pub text_limit: usize,
}

impl Default for AccessibilitySnapshotRequest {
    fn default() -> (request: Self)
        ensures
            request.root is Desktop,
            request.selector is None,
            request.max_depth == DEFAULT_MAX_DEPTH,
            request.max_nodes == DEFAULT_MAX_NODES,
            !request.include_text,
            request.text_limit == DEFAULT_TEXT_LIMIT,
    {
        AccessibilitySnapshotRequest {
            root: AccessibilityRoot::Desktop,
            selector: None,
            max_depth: DEFAULT_MAX_DEPTH,
            max_nodes: DEFAULT_MAX_NODES,
            include_text: false,
            text_limit: DEFAULT_TEXT_LIMIT,
        }
    }
}

/// A numeric value and its range, as bit patterns of binary64 numbers.
#[derive(Debug, Clone, Copy, PartialEq, Eq, Structural)]
pub struct AccessibleValue {
    pub current: u64,
    pub minimum: u64,
    pub maximum: u64,
    pub increment: u64,
}

/// One element of a snapshot.
#[derive(Debug)]
pub struct AccessibleNode {
    pub element_ref: String,
    pub parent_ref: Option<String>,
    pub window_ref: Option<String>,
    pub role: String,
    pub name: String,
    pub description: String,
    pub states: Vec<String>,
    pub bounds: Option<Geometry>,
    pub interfaces: Vec<String>,
    pub actions: Vec<String>,
    pub text: Option<String>,
    pub value: Option<AccessibleValue>,
}

/// The elements that were found, in breadth-first order.
#[derive(Debug)]
pub struct AccessibilitySnapshot {
    pub generation: u64,
    pub truncated: bool,
    pub nodes: Vec<AccessibleNode>,
}

/// What to do with an element. A value is the bit pattern of a binary64 number.
#[derive(Debug)]
pub enum ElementAction {
    Invoke { name: Option<String> },
    Focus,
    SetText { text: String },
    SetValue { value: u64 },
}

/// Asks for an action on an element.
#[derive(Debug)]
pub struct AccessibilityActionRequest {
    pub element_ref: String,
    pub action: ElementAction,
    pub guard: StateGuard,
    pub observe_after: Option<ObserveAfter>,
}

/// The outcome of an action on an element.
#[derive(Debug)]
pub struct AccessibilityActionResult {
    pub ok: bool,
    pub element_ref: String,
    pub accessibility_generation: u64,
}

/// Whether an element is one that a selector means.
pub open spec fn selects(selector: ElementSelector, node: AccessibleNode) -> bool {
    &&& selector.window_ref is Some ==> text::opt_text(node.window_ref) == text::opt_text(
        selector.window_ref,
    )
    &&& selector.role is Some ==> text::ascii_folded(node.role@) == text::ascii_folded(
        selector.role->0@,
    )
    &&& selector.name_contains is Some ==> text::occurs(
        text::lowercase(node.name@),
        text::lowercase(selector.name_contains->0@),
    )
    &&& text::all_folded(texts(node.states@), texts(selector.states_all@))
    &&& selector.action is Some ==> text::list_has_folded(
        texts(node.actions@),
        selector.action->0@,
    )
}

impl ElementSelector {
    /// Whether an element is one that this selector means.
    #[must_use]
    pub fn matches(&self, node: &AccessibleNode) -> (matched: bool)
        ensures
            matched == selects(*self, *node),
    {
        if let Some(window_ref) = &self.window_ref {
            if !is_text(&node.window_ref, window_ref.as_str()) {
                return false;
            }
        }
        if let Some(role) = &self.role {
            if !eq_ignore_ascii_case(node.role.as_str(), role.as_str()) {
                return false;
            }
        }
        if let Some(name) = &self.name_contains {
            if !contains_text(
                to_lowercase(node.name.as_str()).as_str(),
                to_lowercase(name.as_str()).as_str(),
            ) {
                return false;
            }
        }
        if !all_eq_ignore_ascii_case(&node.states, &self.states_all) {
            return false;
        }
        if let Some(action) = &self.action {
            if !any_eq_ignore_ascii_case(&node.actions, action.as_str()) {
                return false;
            }
        }
        true
    }
}

/// Why the limits of a snapshot are refused, if so.
pub open spec fn limits_problem(request: AccessibilitySnapshotRequest) -> Option<Seq<char>> {
    if request.max_depth > MAX_DEPTH {
        Some("max_depth cannot exceed 32"@)
    } else if request.max_nodes == 0 || request.max_nodes > MAX_NODES {
        Some("max_nodes must be between 1 and 2000"@)
    } else if request.text_limit > MAX_TEXT_LIMIT {
        Some("text_limit cannot exceed 4096"@)
    } else {
        None
    }
}

/// Refuses limits that are too large.
pub fn validate_snapshot_request(request: &AccessibilitySnapshotRequest) -> (result: Result<
    (),
    ControllerError,
>)
    ensures
        match (result, limits_problem(*request)) {
            (Ok(()), None) => true,
            (Err(e), Some(message)) => error::final_error(e, ErrorCode::InvalidInput, message),
            _ => false,
        },
{
    if request.max_depth > MAX_DEPTH {
        return Err(ControllerError::new(ErrorCode::InvalidInput, "max_depth cannot exceed 32"));
    }
    if request.max_nodes == 0 || request.max_nodes > MAX_NODES {
        return Err(
            ControllerError::new(ErrorCode::InvalidInput, "max_nodes must be between 1 and 2000"),
        );
    }
    if request.text_limit > MAX_TEXT_LIMIT {
        return Err(ControllerError::new(ErrorCode::InvalidInput, "text_limit cannot exceed 4096"));
    }
    Ok(())
}

/// An object of the accessibility bus. A null object has no name.
#[derive(Debug)]
pub struct BusObject {
    pub name: Option<String>,
    pub path: String,
}

/// An element that has a reference.
#[derive(Debug)]
struct Element {
    key: String,
    name: String,
    path: String,
}

/// The elements that have references, and the generation of their topology.
#[derive(Debug)]
pub struct ElementRegistry {
    elements: Vec<Element>,
    generation: u64,
    topology: Vec<String>,
}

/// What a registry says: the keys of the elements in the order of their
/// references, the generation, and the sorted topology.
#[verifier::ext_equal]
pub struct Registry {
    pub keys: Seq<Seq<char>>,
    pub generation: u64,
    pub topology: Seq<Seq<char>>,
}

/// The number after another, or the last there is.
pub open spec fn bumped(n: u64) -> u64 {
    if n < u64::MAX {
        (n + 1) as u64
    } else {
        u64::MAX
    }
}

/// The place of a key, from a place on.
pub open spec fn key_from(keys: Seq<Seq<char>>, key: Seq<char>, from: int) -> Option<int>
    decreases keys.len() - from,
{
    if from >= keys.len() {
        None
    } else if keys[from] == key {
        Some(from)
    } else {
        key_from(keys, key, from + 1)
    }
}

/// The text of the reference at a place: they are numbered from one.
pub open spec fn element_handle(place: int) -> Seq<char> {
    "e"@ + text::decimal((place + 1) as nat)
}

/// The key of an object: its bus name and its path.
pub open spec fn object_key(name: Seq<char>, path: Seq<char>) -> Seq<char> {
    name + "|"@ + path
}

impl Registry {
    /// The registry after an element was seen. A new element changes the generation.
    pub open spec fn seen(self, key: Seq<char>) -> Registry {
        match key_from(self.keys, key, 0) {
            Some(_) => self,
            None => Registry {
                keys: self.keys.push(key),
                generation: bumped(self.generation),
                ..self
            },
        }
    }

    /// The reference of an element after it was seen.
    pub open spec fn ref_of(self, key: Seq<char>) -> Seq<char> {
        match key_from(self.keys, key, 0) {
            Some(place) => element_handle(place),
            None => element_handle(self.keys.len() as int),
        }
    }

    /// The registry after the sorted topology of a snapshot was compared. A
    /// change from a known topology changes the generation.
    pub open spec fn compared(self, topology: Seq<Seq<char>>) -> Registry {
        Registry {
            generation: if topology != self.topology && self.topology.len() > 0 {
                bumped(self.generation)
            } else {
                self.generation
            },
            topology,
            ..self
        }
    }

    /// The registry after the tree was reported to have changed.
    pub open spec fn invalidated(self) -> Registry {
        Registry { generation: bumped(self.generation), topology: Seq::empty(), ..self }
    }
}

/// What a search for a key finds.
proof fn lemma_key_from(keys: Seq<Seq<char>>, key: Seq<char>, from: int)
    requires
        0 <= from <= keys.len(),
    ensures
        match key_from(keys, key, from) {
            Some(at) => from <= at < keys.len() && keys[at] == key && forall|i: int|
                from <= i < at ==> #[trigger] keys[i] != key,
            None => forall|i: int| from <= i < keys.len() ==> #[trigger] keys[i] != key,
        },
    decreases keys.len() - from,
{
    if from < keys.len() && keys[from] != key {
        lemma_key_from(keys, key, from + 1);
    }
}

/// A search among more keys finds what it found.
proof fn lemma_key_from_push(keys: Seq<Seq<char>>, more: Seq<char>, key: Seq<char>, from: int)
    requires
        0 <= from <= keys.len(),
    ensures
        key_from(keys, key, from) is Some ==> key_from(keys.push(more), key, from) == key_from(
            keys,
            key,
            from,
        ),
        key_from(keys, key, from) is None && more == key ==> key_from(keys.push(more), key, from)
            == Some(keys.len() as int),
    decreases keys.len() - from,
{
    if from < keys.len() {
        if keys[from] != key {
            lemma_key_from_push(keys, more, key, from + 1);
        }
    } else {
        assert(key_from(keys.push(more), key, from + 1) is None);
    }
}

/// Elements keep their references: seeing one again, or seeing another one,
/// does not change the reference, and different elements never share one.
pub proof fn element_references_are_stable(
    registry: Registry,
    key: Seq<char>,
    other: Seq<char>,
)
    ensures
        registry.seen(key).seen(key) == registry.seen(key),
        registry.seen(key).ref_of(key) == registry.ref_of(key),
        registry.seen(key).seen(other).ref_of(key) == registry.ref_of(key),
        key != other ==> registry.seen(key).seen(other).ref_of(key) != registry.seen(key).seen(
            other,
        ).ref_of(other),
{
    let once = registry.seen(key);
    let twice = once.seen(other);
    lemma_key_from(registry.keys, key, 0);
    lemma_key_from_push(registry.keys, key, key, 0);
    lemma_key_from(once.keys, key, 0);
    lemma_key_from(once.keys, other, 0);
    lemma_key_from_push(once.keys, other, key, 0);
    lemma_key_from_push(once.keys, other, other, 0);
    lemma_key_from(twice.keys, key, 0);
    lemma_key_from(twice.keys, other, 0);
    if key != other {
        let a = key_from(twice.keys, key, 0)->0;
        let b = key_from(twice.keys, other, 0)->0;
        if element_handle(a) == element_handle(b) {
            element_handles_are_distinct(a, b);
        }
    }
}

/// References at different places have different texts.
pub proof fn element_handles_are_distinct(first: int, second: int)
    requires
        0 <= first,
        0 <= second,
        element_handle(first) == element_handle(second),
    ensures
        first == second,
{
    let prefix = "e"@;
    assert(element_handle(first).skip(prefix.len() as int) =~= text::decimal((first + 1) as nat));
    assert(element_handle(second).skip(prefix.len() as int) =~= text::decimal(
        (second + 1) as nat,
    ));
    text::lemma_decimal_injective((first + 1) as nat, (second + 1) as nat);
}

/// The generation never falls. It rises with every element that is new,
/// every report of a change and every change from a known topology, and
/// with nothing else: a snapshot that finds the same lines in any order
/// leaves it.
pub proof fn semantic_generations_count_changes(
    registry: Registry,
    key: Seq<char>,
    found: Seq<Seq<char>>,
)
    requires
        sort::in_text_order(registry.topology),
        sort::in_text_order(found),
        registry.generation < u64::MAX,
    ensures
        registry.seen(key).generation == registry.generation + (if registry.keys.contains(key) {
            0int
        } else {
            1int
        }),
        registry.invalidated().generation == registry.generation + 1,
        found.to_multiset() == registry.topology.to_multiset() ==> registry.compared(
            found,
        ).generation == registry.generation,
        found.to_multiset() != registry.topology.to_multiset() && registry.topology.len() > 0
            ==> registry.compared(found).generation == registry.generation + 1,
{
    lemma_key_from(registry.keys, key, 0);
    if registry.keys.contains(key) {
        let i = registry.keys.index_of(key);
        assert(registry.keys[i] == key);
    }
    if found.to_multiset() == registry.topology.to_multiset() {
        sort::sorted_texts_are_unique(found, registry.topology);
    }
}

impl View for ElementRegistry {
    type V = Registry;

    closed spec fn view(&self) -> Registry {
        Registry {
            keys: self.elements@.map_values(|element: Element| element.key@),
            generation: self.generation,
            topology: texts(self.topology@),
        }
    }
}

impl ElementRegistry {
    /// Whether elements have the keys of their objects.
    pub closed spec fn well_formed(&self) -> bool {
        forall|i: int|
            0 <= i < self.elements@.len() ==> (#[trigger] self.elements@[i]).key@ == object_key(
                self.elements@[i].name@,
                self.elements@[i].path@,
            )
    }

    /// A registry without elements.
    pub fn new() -> (registry: Self)
        ensures
            registry.well_formed(),
            registry@.keys.len() == 0,
            registry@.generation == 1,
            registry@.topology.len() == 0,
    {
        ElementRegistry { elements: Vec::new(), generation: 1, topology: Vec::new() }
    }

    /// The generation of the topology.
    pub fn generation(&self) -> (generation: u64)
        ensures
            generation == self@.generation,
    {
        self.generation
    }

    /// The reference of an object, which is given out where the object is new.
    pub fn ensure_ref(&mut self, name: &str, path: &str) -> (element_ref: String)
        requires
            old(self).well_formed(),
        ensures
            final(self).well_formed(),
            final(self)@ == old(self)@.seen(object_key(name@, path@)),
            element_ref@ == old(self)@.ref_of(object_key(name@, path@)),
    {
        let key = name.to_owned().concat("|").concat(path);
        let ghost before = self@;
        let mut at: usize = 0;
        while at < self.elements.len()
            invariant
                at <= self.elements.len(),
                *self == *old(self),
                before == self@,
                key@ == object_key(name@, path@),
                key_from(before.keys, key@, 0) == key_from(before.keys, key@, at as int),
                self.well_formed(),
            decreases self.elements.len() - at,
        {
            assert(before.keys[at as int] == self.elements@[at as int].key@);
            if same_text(self.elements[at].key.as_str(), key.as_str()) {
                let number = format_wide(at as u128 + 1);
                return "e".to_owned().concat(number.as_str());
            }
            at += 1;
        }
        let number = format_wide(self.elements.len() as u128 + 1);
        let element_ref = "e".to_owned().concat(number.as_str());
        if self.generation < u64::MAX {
            self.generation = self.generation + 1;
        }
        self.elements.push(
            Element { key, name: name.to_owned(), path: path.to_owned() },
        );
        assert(self@.keys =~= before.keys.push(object_key(name@, path@)));
        element_ref
    }

    /// The object of a reference.
    pub open spec fn object_at(&self, element_ref: Seq<char>, place: int) -> bool {
        0 <= place < self@.keys.len() && element_ref == element_handle(place)
    }

    /// The name and path of the object that a reference means.
    pub fn lookup(&self, element_ref: &str) -> (found: Option<(String, String)>)
        requires
            self.well_formed(),
        ensures
            match found {
                Some((name, path)) => exists|place: int| #[trigger]
                    self.object_at(element_ref@, place) && self@.keys[place] == object_key(
                        name@,
                        path@,
                    ),
                None => forall|place: int| !#[trigger] self.object_at(element_ref@, place),
            },
    {
        let mut at: usize = 0;
        while at < self.elements.len()
            invariant
                at <= self.elements.len(),
                self.well_formed(),
                forall|i: int| 0 <= i < at ==> element_ref@ != #[trigger] element_handle(i),
            decreases self.elements.len() - at,
        {
            let number = format_wide(at as u128 + 1);
            let handle = "e".to_owned().concat(number.as_str());
            assert(handle@ == element_handle(at as int));
            if same_text(handle.as_str(), element_ref) {
                let element = &self.elements[at];
                assert(self@.keys[at as int] == self.elements@[at as int].key@);
                assert(self.object_at(element_ref@, at as int));
                return Some((element.name.clone(), element.path.clone()));
            }
            at += 1;
        }
        None
    }

    /// Compares the topology of a snapshot with the known one.
    pub fn compare_topology(&mut self, lines: Vec<String>) -> (generation: u64)
        requires
            old(self).well_formed(),
        ensures
            final(self).well_formed(),
            generation == final(self)@.generation,
            exists|found: Seq<Seq<char>>|
                sort::in_text_order(found) && found.to_multiset() == texts(lines@).to_multiset()
                    && final(self)@ == #[trigger] old(self)@.compared(found),
    {
        let ghost before = self@;
        let found = sort_texts(lines);
        let same: bool = same_texts(&self.topology, &found);
        if !same {
            if self.topology.len() > 0 && self.generation < u64::MAX {
                self.generation = self.generation + 1;
            }
        }
        let ghost sorted = texts(found@);
        self.topology = found;
        assert(self@ =~= before.compared(sorted));
        self.generation
    }

    /// Takes note that the tree was reported to have changed.
    pub fn invalidate(&mut self)
        requires
            old(self).well_formed(),
        ensures
            final(self).well_formed(),
            final(self)@ == old(self)@.invalidated(),
    {
        if self.generation < u64::MAX {
            self.generation = self.generation + 1;
        }
        self.topology = Vec::new();
        assert(self@.topology =~= Seq::empty());
    }
}

/// Whether two lists hold the same texts in the same order.
fn same_texts(first: &Vec<String>, second: &Vec<String>) -> (same: bool)
    ensures
        same == (texts(first@) == texts(second@)),
{
    if first.len() != second.len() {
        assert(texts(first@).len() != texts(second@).len());
        return false;
    }
    let mut at: usize = 0;
    while at < first.len()
        invariant
            at <= first.len() == second.len(),
            forall|i: int| 0 <= i < at ==> texts(first@)[i] == texts(second@)[i],
        decreases first.len() - at,
    {
        if !same_text(first[at].as_str(), second[at].as_str()) {
            assert(texts(first@)[at as int] != texts(second@)[at as int]);
            return false;
        }
        at += 1;
    }
    assert(texts(first@) =~= texts(second@));
    true
}

/// The error of a reference that means no element.
pub open spec fn unknown_element(element_ref: Seq<char>) -> Seq<char> {
    "unknown or stale element reference: "@ + element_ref
}

/// The error of a reference that means no element.
fn unknown_element_error(element_ref: &str) -> (e: ControllerError)
    ensures
        error::retry_error(e, ErrorCode::StaleElement, unknown_element(element_ref@)),
{
    error2(ErrorCode::StaleElement, "unknown or stale element reference: ", element_ref).retryable(
        true,
    )
}

/// Where a walk starts.
#[derive(Debug)]
pub enum RootObject {
    /// At the children of the registry.
    Children,
    /// At an object.
    Object { name: String, path: String },
}

/// Where the walk of a snapshot starts. A window has no object of its own:
/// its elements are found among all.
pub fn root_object(registry: &ElementRegistry, root: &AccessibilityRoot) -> (result: Result<
    RootObject,
    ControllerError,
>)
    requires
        registry.well_formed(),
    ensures
        match (root, result) {
            (AccessibilityRoot::Element { element_ref }, Ok(RootObject::Object { name, path })) =>
                exists|place: int| #[trigger]
                registry.object_at(element_ref@, place) && registry@.keys[place] == object_key(
                    name@,
                    path@,
                ),
            (AccessibilityRoot::Element { element_ref }, Err(e)) => (forall|place: int|
                !#[trigger] registry.object_at(element_ref@, place)) && error::retry_error(
                e,
                ErrorCode::StaleElement,
                unknown_element(element_ref@),
            ),
            (AccessibilityRoot::Element { .. }, _) => false,
            (_, Ok(RootObject::Children)) => true,
            _ => false,
        },
{
    match root {
        AccessibilityRoot::Element { element_ref } => match registry.lookup(element_ref.as_str()) {
            Some((name, path)) => Ok(RootObject::Object { name, path }),
            None => Err(unknown_element_error(element_ref.as_str())),
        },
        _ => Ok(RootObject::Children),
    }
}

/// What is said of the bus while it is linked.
pub fn accessibility_info(connected: bool, generation: u64) -> (info: AccessibilityInfo)
    ensures
        info.available == connected,
        info.generation == generation,
        match info.reason {
            Some(reason) => !connected && reason@ == "AT-SPI event stream disconnected"@,
            None => connected,
        },
{
    let reason: Option<String> = if connected {
        None
    } else {
        Some("AT-SPI event stream disconnected".to_owned())
    };
    AccessibilityInfo { available: connected, generation, reason }
}

/// The process of one bus name, where it has one.
#[derive(Debug)]
struct BusProcess {
    name: String,
    pid: Option<u32>,
}

/// The processes of bus names that were asked for.
#[derive(Debug)]
pub struct ProcessIds {
    known: Vec<BusProcess>,
}

impl View for ProcessIds {
    type V = Seq<(Seq<char>, Option<u32>)>;

    closed spec fn view(&self) -> Seq<(Seq<char>, Option<u32>)> {
        self.known@.map_values(|process: BusProcess| (process.name@, process.pid))
    }
}

/// What is known of a bus name, from a place on.
pub open spec fn known_from(
    known: Seq<(Seq<char>, Option<u32>)>,
    name: Seq<char>,
    from: int,
) -> Option<Option<u32>>
    decreases known.len() - from,
{
    if from >= known.len() {
        None
    } else if known[from].0 == name {
        Some(known[from].1)
    } else {
        known_from(known, name, from + 1)
    }
}

/// A bus name is asked for once: what came of it stays known.
pub proof fn processes_are_remembered(
    known: Seq<(Seq<char>, Option<u32>)>,
    name: Seq<char>,
    pid: Option<u32>,
    more: Seq<(Seq<char>, Option<u32>)>,
    from: int,
)
    requires
        0 <= from <= known.len(),
        known_from(known, name, from) is None,
    ensures
        known_from(known.push((name, pid)) + more, name, from) == Some(pid),
    decreases known.len() - from,
{
    let all = known.push((name, pid)) + more;
    if from < known.len() {
        assert(all[from] == known[from]);
        processes_are_remembered(known, name, pid, more, from + 1);
    } else {
        assert(all[from] == (name, pid));
    }
}

impl ProcessIds {
    /// Nothing is known.
    pub fn new() -> (ids: Self)
        ensures
            ids@ == Seq::<(Seq<char>, Option<u32>)>::empty(),
    {
        let ids = ProcessIds { known: Vec::new() };
        assert(ids@ =~= Seq::empty());
        ids
    }

    /// What is known of a bus name.
    pub fn find(&self, name: &str) -> (found: Option<Option<u32>>)
        ensures
            found == known_from(self@, name@, 0),
    {
        let mut at: usize = 0;
        while at < self.known.len()
            invariant
                at <= self.known.len(),
                known_from(self@, name@, 0) == known_from(self@, name@, at as int),
            decreases self.known.len() - at,
        {
            assert(self@[at as int] == (self.known@[at as int].name@, self.known@[at as int].pid));
            if same_text(self.known[at].name.as_str(), name) {
                return Some(self.known[at].pid);
            }
            at += 1;
        }
        None
    }

    /// Takes note of the process of a bus name.
    pub fn note(&mut self, name: &str, pid: Option<u32>)
        ensures
            final(self)@ == old(self)@.push((name@, pid)),
    {
        let ghost before = self@;
        self.known.push(BusProcess { name: name.to_owned(), pid });
        assert(self@ =~= before.push((name@, pid)));
    }
}

/// Whether an error says that the topology is not the guarded one.
pub open spec fn generation_error(e: ControllerError, expected: u64, generation: u64) -> bool {
    &&& e.code == ErrorCode::PreconditionFailed
    &&& e.message@ == "accessibility topology changed since the guarded snapshot"@
    &&& e.retryable
    &&& e.details == Some(
        ErrorDetails::AccessibilityGeneration {
            expected_accessibility_generation: expected,
            accessibility_generation: generation,
        },
    )
}

/// The error of a topology that is not the guarded one.
pub fn accessibility_generation_error(expected: u64, generation: u64) -> (e: ControllerError)
    ensures
        generation_error(e, expected, generation),
{
    ControllerError::new(
        ErrorCode::PreconditionFailed,
        "accessibility topology changed since the guarded snapshot",
    ).retryable(true).with_details(
        ErrorDetails::AccessibilityGeneration {
            expected_accessibility_generation: expected,
            accessibility_generation: generation,
        },
    )
}

/// Whether an error says that a guard names no generation.
pub open spec fn missing_generation(e: ControllerError) -> bool {
    error::retry_error(
        e,
        ErrorCode::PreconditionFailed,
        "semantic actions require guard.accessibility_generation"@,
    )
}

/// The error of a guard that names no generation.
fn missing_generation_error() -> (e: ControllerError)
    ensures
        missing_generation(e),
{
    ControllerError::new(
        ErrorCode::PreconditionFailed,
        "semantic actions require guard.accessibility_generation",
    ).retryable(true)
}

/// Refuses a guard that does not name the present generation.
pub fn validate_guard(guard: &StateGuard, generation: u64) -> (result: Result<
    (),
    ControllerError,
>)
    ensures
        match (result, guard.accessibility_generation) {
            (Ok(()), Some(expected)) => expected == generation,
            (Err(e), Some(expected)) => expected != generation && generation_error(
                e,
                expected,
                generation,
            ),
            (Err(e), None) => missing_generation(e),
            _ => false,
        },
{
    match guard.accessibility_generation {
        None => Err(missing_generation_error()),
        Some(expected) => {
            if generation != expected {
                Err(accessibility_generation_error(expected, generation))
            } else {
                Ok(())
            }
        },
    }
}

/// An element to act on, and the generation at which it was found.
#[derive(Debug)]
pub struct ActionObject {
    pub name: String,
    pub path: String,
    pub generation: u64,
}

/// Whether a result is that of a checked action on an element. Nothing is
/// acted on once the emergency stop is latched. Else the guard names the
/// present generation, unless a batch has checked that, and the reference
/// means an element.
pub open spec fn action_checked(
    result: Result<ActionObject, ControllerError>,
    stopped: bool,
    registry: ElementRegistry,
    request: AccessibilityActionRequest,
) -> bool {
    match result {
        Ok(object) => {
            &&& !stopped
            &&& object.generation == registry@.generation
            &&& request.guard.prevalidated || request.guard.accessibility_generation == Some(
                registry@.generation,
            )
            &&& exists|place: int| #[trigger]
                registry.object_at(request.element_ref@, place) && registry@.keys[place]
                    == object_key(object.name@, object.path@)
        },
        Err(e) => if stopped {
            error::is_fault(e, controller::stop_fault(true)->0)
        } else if !request.guard.prevalidated && request.guard.accessibility_generation is None {
            missing_generation(e)
        } else if exists|place: int| #[trigger] registry.object_at(request.element_ref@, place) {
            &&& !request.guard.prevalidated
            &&& request.guard.accessibility_generation->0 != registry@.generation
            &&& generation_error(
                e,
                request.guard.accessibility_generation->0,
                registry@.generation,
            )
        } else {
            error::retry_error(e, ErrorCode::StaleElement, unknown_element(request.element_ref@))
        },
    }
}

/// Checks an action on an element.
pub fn check_action(
    stopped: bool,
    registry: &ElementRegistry,
    request: &AccessibilityActionRequest,
) -> (result: Result<ActionObject, ControllerError>)
    requires
        registry.well_formed(),
    ensures
        action_checked(result, stopped, *registry, *request),
{
    match ensure_mutation_allowed(stopped) {
        Ok(()) => {},
        Err(e) => {
            return Err(e);
        },
    }
    if !request.guard.prevalidated && request.guard.accessibility_generation.is_none() {
        return Err(missing_generation_error());
    }
    let (name, path) = match registry.lookup(request.element_ref.as_str()) {
        Some(object) => object,
        None => {
            return Err(unknown_element_error(request.element_ref.as_str()));
        },
    };
    let generation = registry.generation();
    if !request.guard.prevalidated {
        if let Some(expected) = request.guard.accessibility_generation {
            if generation != expected {
                return Err(accessibility_generation_error(expected, generation));
            }
        }
    }
    Ok(ActionObject { name, path, generation })
}

/// The outcome of an action on an element: whether the element took it, and
/// the generation at which the element was found.
pub fn action_outcome(ok: bool, request: &AccessibilityActionRequest, object: &ActionObject) -> (
    outcome: AccessibilityActionResult)
    ensures
        outcome.ok == ok,
        outcome.element_ref == request.element_ref,
        outcome.accessibility_generation == object.generation,
{
    AccessibilityActionResult {
        ok,
        element_ref: request.element_ref.clone(),
        accessibility_generation: object.generation,
    }
}

/// The first action with a name but for case, from a place on.
pub open spec fn action_from(actions: Seq<Seq<char>>, name: Seq<char>, from: int) -> Option<int>
    decreases actions.len() - from,
{
    if from >= actions.len() {
        None
    } else if text::ascii_folded(actions[from]) == text::ascii_folded(name) {
        Some(from)
    } else {
        action_from(actions, name, from + 1)
    }
}

/// The number of the action to invoke: that of a name, or the first.
pub fn action_index(actions: &Vec<String>, name: &Option<String>) -> (result: Result<
    i32,
    ControllerError,
>)
    ensures
        match name {
            None => result == Ok::<i32, ControllerError>(0i32),
            Some(wanted) => match action_from(texts(actions@), wanted@, 0) {
                Some(at) if at <= i32::MAX => result == Ok::<i32, ControllerError>(at as i32),
                _ => result is Err && error::final_error(
                    result->Err_0,
                    ErrorCode::InvalidInput,
                    "element does not expose action Some("@ + text::debug_text(wanted@) + ")"@,
                ),
            },
        },
{
    let wanted = match name {
        Some(wanted) => wanted,
        None => {
            return Ok(0);
        },
    };
    let ghost all = texts(actions@);
    let mut at: usize = 0;
    while at < actions.len()
        invariant_except_break
            at <= actions.len(),
            all == texts(actions@),
            *name == Some(*wanted),
            action_from(all, wanted@, 0) == action_from(all, wanted@, at as int),
        ensures
            action_from(all, wanted@, 0) is None || action_from(all, wanted@, 0)->0 > i32::MAX,
        decreases actions.len() - at,
    {
        assert(all[at as int] == actions@[at as int]@);
        if eq_ignore_ascii_case(actions[at].as_str(), wanted.as_str()) {
            if at <= 0x7fff_ffff {
                return Ok(at as i32);
            }
            break;
        }
        at += 1;
    }
    let quoted = format_debug(wanted.as_str());
    Err(
        error3(
            ErrorCode::InvalidInput,
            "element does not expose action Some(",
            quoted.as_str(),
            ")",
        ),
    )
}

/// Refuses a value that is not finite.
pub fn check_value(value: u64) -> (result: Result<(), ControllerError>)
    ensures
        match result {
            Ok(()) => ieee::is_finite(value),
            Err(e) => !ieee::is_finite(value) && error::final_error(
                e,
                ErrorCode::InvalidInput,
                "semantic value must be finite"@,
            ),
        },
{
    if ieee::finite(value) {
        Ok(())
    } else {
        Err(ControllerError::new(ErrorCode::InvalidInput, "semantic value must be finite"))
    }
}

/// The error of a failure on the bus.
pub fn accessibility_error(message: &str) -> (e: ControllerError)
    ensures
        error::retry_error(e, ErrorCode::Accessibility, message@),
{
    ControllerError::new(ErrorCode::Accessibility, message).retryable(true)
}

/// The error of a failure to reach an element: the element is stale where
/// the bus does not know it or it does not answer.
pub fn stale_or_accessibility(element_ref: &str, message: &str) -> (e: ControllerError)
    ensures
        if text::occurs(message@, "UnknownObject"@) || text::occurs(message@, "NoReply"@) {
            error::retry_error(
                e,
                ErrorCode::StaleElement,
                "element "@ + element_ref@ + " is stale: "@ + message@,
            )
        } else {
            error::retry_error(e, ErrorCode::Accessibility, message@)
        },
{
    if contains_text(message, "UnknownObject") || contains_text(message, "NoReply") {
        let start = "element ".to_owned().concat(element_ref).concat(" is stale: ");
        error2(ErrorCode::StaleElement, start.as_str(), message).retryable(true)
    } else {
        accessibility_error(message)
    }
}

/// An element selector means an element exactly where each of its fields that
/// is present holds by itself: the window, the role but for ASCII case, a part of
/// the name but for case, every one of the states and the action but for ASCII
/// case.
pub proof fn element_selectors_need_every_field(
    selector: ElementSelector,
    node: AccessibleNode,
    matched: bool,
)
    requires
        call_ensures(ElementSelector::matches, (&selector, &node), matched),
    ensures
        ({
            let alike = |a: String, b: String| text::ascii_folded(a@) == text::ascii_folded(b@);
            let placed = node.window_ref is Some && node.window_ref->0@ == selector.window_ref->0@;
            let named = text::occurs(
                text::lowercase(node.name@),
                text::lowercase(selector.name_contains->0@),
            );
            let has = |list: Seq<String>, wanted: String|
                exists|j: int| 0 <= j < list.len() && alike(#[trigger] list[j], wanted);
            let stated = forall|i: int|
                0 <= i < selector.states_all@.len() ==> has(
                    node.states@,
                    #[trigger] selector.states_all@[i],
                );
            let active = has(node.actions@, selector.action->0);
            &&& matched && selector.window_ref is Some ==> placed
            &&& matched && selector.role is Some ==> alike(node.role, selector.role->0)
            &&& matched && selector.name_contains is Some ==> named
            &&& matched ==> stated
            &&& matched && selector.action is Some ==> active
            &&& !matched ==> {
                ||| selector.window_ref is Some && !placed
                ||| selector.role is Some && !alike(node.role, selector.role->0)
                ||| selector.name_contains is Some && !named
                ||| !stated
                ||| selector.action is Some && !active
            }
        }),
        matched == selects(selector, node),
{
    lemma_all_alike(node.states@, selector.states_all@);
    assert forall|i: int| 0 <= i < selector.states_all@.len() implies (text::list_has_folded(
        texts(node.states@),
        (#[trigger] selector.states_all@[i])@,
    ) <==> exists|j: int|
        0 <= j < node.states@.len() && text::ascii_folded((#[trigger] node.states@[j])@)
            == text::ascii_folded(selector.states_all@[i]@)) by {
        lemma_some_alike(node.states@, selector.states_all@[i]);
    }
    if let Some(action) = selector.action {
        lemma_some_alike(node.actions@, action);
    }
}

/// Every wanted text is in a list where each is.
proof fn lemma_all_alike(list: Seq<String>, wanted: Seq<String>)
    ensures
        text::all_folded(texts(list), texts(wanted)) <==> forall|i: int|
            0 <= i < wanted.len() ==> text::list_has_folded(texts(list), (#[trigger] wanted[i])@),
{
    assert forall|i: int| 0 <= i < wanted.len() implies texts(wanted)[i] == (
    #[trigger] wanted[i])@ by {}
    if forall|i: int|
        0 <= i < wanted.len() ==> text::list_has_folded(texts(list), (#[trigger] wanted[i])@) {
        assert forall|i: int| 0 <= i < texts(wanted).len() implies text::list_has_folded(
            texts(list),
            #[trigger] texts(wanted)[i],
        ) by {
            assert(text::list_has_folded(texts(list), wanted[i]@));
        }
    }
}

/// A wanted text is in a list where one of the list is like it.
proof fn lemma_some_alike(list: Seq<String>, wanted: String)
    ensures
        text::list_has_folded(texts(list), wanted@) <==> exists|j: int|
            0 <= j < list.len() && text::ascii_folded((#[trigger] list[j])@) == text::ascii_folded(
                wanted@,
            ),
{
    if text::list_has_folded(texts(list), wanted@) {
        let j = choose|j: int|
            0 <= j < texts(list).len() && #[trigger] text::ascii_folded(texts(list)[j])
                == text::ascii_folded(wanted@);
        assert(texts(list)[j] == list[j]@);
    }
    if exists|j: int|
        0 <= j < list.len() && text::ascii_folded((#[trigger] list[j])@) == text::ascii_folded(
            wanted@,
        ) {
        let j = choose|j: int|
            0 <= j < list.len() && text::ascii_folded((#[trigger] list[j])@) == text::ascii_folded(
                wanted@,
            );
        assert(texts(list)[j] == list[j]@);
    }
}

/// A snapshot reaches at most 32 levels down, finds one to 2000 elements and
/// reads at most 4096 characters of each; one that asks for no limits gets 8
/// levels, 500 elements and no text.
pub proof fn snapshot_limits_are_bounded(
    request: AccessibilitySnapshotRequest,
    result: Result<(), ControllerError>,
    usual: AccessibilitySnapshotRequest,
)
    requires
        call_ensures(validate_snapshot_request, (&request,), result),
        call_ensures(AccessibilitySnapshotRequest::default, (), usual),
    ensures
        result is Ok <==> request.max_depth <= 32 && 1 <= request.max_nodes <= 2_000
            && request.text_limit <= 4_096,
        result is Err ==> result->Err_0.code == ErrorCode::InvalidInput && !result->Err_0.retryable,
        usual.root is Desktop && usual.selector is None && usual.max_depth == 8 && usual.max_nodes
            == 500 && !usual.include_text,
{
}

/// An action is named but for ASCII case, the first of that name is invoked,
/// and without a name the default one, which is the first of all.
pub proof fn named_actions_are_found(
    actions: Vec<String>,
    name: Option<String>,
    result: Result<i32, ControllerError>,
)
    requires
        call_ensures(action_index, (&actions, &name), result),
        actions@.len() <= i32::MAX,
    ensures
        name is None ==> result == Ok::<i32, ControllerError>(0),
        name is Some && result is Ok ==> {
            &&& 0 <= result->Ok_0 < actions@.len()
            &&& text::ascii_folded(actions@[result->Ok_0 as int]@) == text::ascii_folded(name->0@)
            &&& forall|i: int|
                0 <= i < result->Ok_0 ==> text::ascii_folded((#[trigger] actions@[i])@)
                    != text::ascii_folded(name->0@)
        },
        name is Some && result is Err ==> result->Err_0.code == ErrorCode::InvalidInput && forall|
            i: int,
        |
            0 <= i < actions@.len() ==> text::ascii_folded((#[trigger] actions@[i])@)
                != text::ascii_folded(name->0@),
{
    if let Some(wanted) = name {
        lemma_action_from(texts(actions@), wanted@, 0);
        assert forall|i: int| 0 <= i < actions@.len() implies texts(actions@)[i] == (
        #[trigger] actions@[i])@ by {}
    }
}

/// Where a search for an action ends.
proof fn lemma_action_from(actions: Seq<Seq<char>>, name: Seq<char>, from: int)
    requires
        0 <= from,
    ensures
        match action_from(actions, name, from) {
            Some(at) => from <= at < actions.len() && text::ascii_folded(actions[at])
                == text::ascii_folded(name) && forall|i: int|
                from <= i < at ==> text::ascii_folded(#[trigger] actions[i])
                    != text::ascii_folded(name),
            None => forall|i: int|
                from <= i < actions.len() ==> text::ascii_folded(#[trigger] actions[i])
                    != text::ascii_folded(name),
        },
    decreases actions.len() - from,
{
    if from < actions.len() && text::ascii_folded(actions[from]) != text::ascii_folded(name) {
        lemma_action_from(actions, name, from + 1);
    }
}

/// An element is acted on only where the emergency stop is not latched, its
/// reference was given out, and the guard names the present generation, unless a
/// batch has checked that; and it is acted on wherever all of this holds.
pub proof fn semantic_actions_need_a_current_guard(
    stopped: bool,
    registry: ElementRegistry,
    request: AccessibilityActionRequest,
    result: Result<ActionObject, ControllerError>,
)
    requires
        call_ensures(check_action, (stopped, &registry, &request), result),
    ensures
        ({
            let known = exists|place: int|
                0 <= place < registry@.keys.len() && request.element_ref@ == #[trigger]
                    element_handle(place);
            let current = request.guard.accessibility_generation is Some
                && request.guard.accessibility_generation->0 == registry@.generation;
            &&& result is Ok <==> !stopped && known && (request.guard.prevalidated || current)
            &&& stopped ==> result is Err && result->Err_0.code == ErrorCode::EmergencyStop
                && !result->Err_0.retryable
            &&& !stopped && result is Err ==> result->Err_0.retryable && (result->Err_0.code
                == ErrorCode::PreconditionFailed || result->Err_0.code == ErrorCode::StaleElement)
            &&& result is Ok ==> exists|place: int|
                0 <= place < registry@.keys.len() && request.element_ref@ == #[trigger]
                    element_handle(place) && registry@.keys[place] == object_key(
                    result->Ok_0.name@,
                    result->Ok_0.path@,
                )
            &&& result is Ok ==> result->Ok_0.generation == registry@.generation
        }),
{
    if exists|place: int| #[trigger] registry.object_at(request.element_ref@, place) {
        let place = choose|place: int| #[trigger] registry.object_at(request.element_ref@, place);
        assert(request.element_ref@ == element_handle(place));
    }
    if exists|place: int|
        0 <= place < registry@.keys.len() && request.element_ref@ == #[trigger] element_handle(
            place,
        ) {
        let place = choose|place: int|
            0 <= place < registry@.keys.len() && request.element_ref@ == #[trigger] element_handle(
                place,
            );
        assert(registry.object_at(request.element_ref@, place));
    }
}

/// A reference means the element that it was given out for.
pub proof fn element_references_mean_their_element(registry: Registry, key: Seq<char>)
    ensures
        ({
            let after = registry.seen(key);
            exists|place: int|
                0 <= place < after.keys.len() && after.keys[place] == key && registry.ref_of(key)
                    == #[trigger] element_handle(place)
        }),
        registry.seen(key).keys.take(registry.keys.len() as int) == registry.keys,
        registry.seen(key).topology == registry.topology,
        registry.invalidated().keys == registry.keys,
{
    lemma_key_from(registry.keys, key, 0);
    assert(registry.seen(key).keys.take(registry.keys.len() as int) =~= registry.keys);
    match key_from(registry.keys, key, 0) {
        Some(place) => {
            assert(registry.ref_of(key) == element_handle(place));
        },
        None => {
            assert(registry.seen(key).keys[registry.keys.len() as int] == key);
            assert(registry.ref_of(key) == element_handle(registry.keys.len() as int));
        },
    }
}

} // verus!
