//! The registry of component names and groups, and what the entries of a
//! configuration's returned list mean.
use vstd::prelude::*;

use crate::annotations::{lua_class_def, FULL_NAME_PLACEHOLDER};
use crate::component::last_index_of;
use crate::text::{
    chars_of, join_strs, join_with, pascal_case, push_str, replace_all, str_eq, string_from_range,
    string_push, to_pascal_case,
};

verus! {

/// The entry that moves the following components to the right edge.
pub const ALIGN_MARKER: &'static str = "@align";

/// How a group renders its members.
#[derive(PartialEq, Eq, Structural)]
pub enum GroupKind {
    /// Every enabled member.
    All,
    /// Only the first enabled member.
    FirstOf,
}

/// A named group of components.
pub struct ComponentGroup {
    pub kind: GroupKind,
    pub members: Vec<String>,
}

/// The registered component names in registration order, and the groups.
pub struct Registry {
    pub order: Vec<String>,
    pub groups: Vec<(String, ComponentGroup)>,
}

pub open spec fn names(v: Seq<String>) -> Seq<Seq<char>> {
    v.map_values(|s: String| s@)
}

pub open spec fn group_names(g: Seq<(String, ComponentGroup)>) -> Seq<Seq<char>> {
    g.map_values(|e: (String, ComponentGroup)| e.0@)
}

/// No element occurs twice.
pub open spec fn distinct(s: Seq<Seq<char>>) -> bool {
    forall|i: int, j: int| 0 <= i < j < s.len() ==> s[i] != s[j]
}

/// The registration order after registering `name`: a name registered
/// before keeps its place, a new one goes last.
pub open spec fn after_register(order: Seq<Seq<char>>, name: Seq<char>) -> Seq<Seq<char>> {
    if order.contains(name) {
        order
    } else {
        order.push(name)
    }
}

/// Registering a name twice is the same as registering it once, and the
/// name is registered afterwards.
pub proof fn law_register_idempotent(order: Seq<Seq<char>>, name: Seq<char>)
    ensures
        after_register(after_register(order, name), name) == after_register(order, name),
        after_register(order, name).contains(name),
{
    if !order.contains(name) {
        assert(order.push(name)[order.len() as int] == name);
    }
}

/// Registration never lets a name occur twice.
pub proof fn law_register_keeps_distinct(order: Seq<Seq<char>>, name: Seq<char>)
    requires
        distinct(order),
    ensures
        distinct(after_register(order, name)),
{
}

impl Registry {
    pub open spec fn order_view(&self) -> Seq<Seq<char>> {
        names(self.order@)
    }

    pub open spec fn group_names_view(&self) -> Seq<Seq<char>> {
        group_names(self.groups@)
    }

    /// No component and no group is registered twice.
    pub open spec fn wf(&self) -> bool {
        distinct(self.order_view()) && distinct(self.group_names_view())
    }

    pub open spec fn has_component(&self, name: Seq<char>) -> bool {
        self.order_view().contains(name)
    }

    pub open spec fn has_group(&self, name: Seq<char>) -> bool {
        self.group_names_view().contains(name)
    }

    pub fn new() -> (r: Registry)
        ensures
            r.wf(),
            r.order_view() == Seq::<Seq<char>>::empty(),
            r.group_names_view() == Seq::<Seq<char>>::empty(),
    {
        let r = Registry { order: Vec::new(), groups: Vec::new() };
        assert(r.order_view() =~= Seq::<Seq<char>>::empty());
        assert(r.group_names_view() =~= Seq::<Seq<char>>::empty());
        r
    }

    /// Index of the component with this name.
    pub fn find_component(&self, name: &str) -> (r: Option<usize>)
        ensures
            r matches Some(i) ==> i < self.order@.len() && self.order_view()[i as int] == name@,
            r is None ==> !self.has_component(name@),
    {
        let mut i: usize = 0;
        while i < self.order.len()
            invariant
                i <= self.order@.len(),
                forall|j: int| 0 <= j < i ==> self.order_view()[j] != name@,
            decreases self.order@.len() - i,
        {
            if str_eq(self.order[i].as_str(), name) {
                return Some(i);
            }
            i = i + 1;
        }
        assert(!self.has_component(name@)) by {
            if self.order_view().contains(name@) {
                let k = choose|k: int| 0 <= k < self.order_view().len() && self.order_view()[k] == name@;
            }
        }
        None
    }

    /// Whether a component with this name is registered.
    pub fn contains(&self, name: &str) -> (r: bool)
        ensures
            r == self.has_component(name@),
    {
        match self.find_component(name) {
            Some(_) => true,
            None => false,
        }
    }

    /// Registers a component name; a name registered before keeps its place.
    pub fn register(&mut self, name: &str)
        requires
            old(self).wf(),
        ensures
            final(self).wf(),
            final(self).groups@ == old(self).groups@,
            final(self).order_view() == after_register(old(self).order_view(), name@),
    {
        if !self.contains(name) {
            let ghost before = self.order_view();
            self.order.push(name.to_string());
            assert(self.order_view() =~= before.push(name@));
        }
    }

    /// Index of the group with this name.
    pub fn find_group(&self, name: &str) -> (r: Option<usize>)
        ensures
            r matches Some(i) ==> i < self.groups@.len() && self.group_names_view()[i as int] == name@,
            r is None ==> !self.has_group(name@),
    {
        let mut i: usize = 0;
        while i < self.groups.len()
            invariant
                i <= self.groups@.len(),
                forall|j: int| 0 <= j < i ==> self.group_names_view()[j] != name@,
            decreases self.groups@.len() - i,
        {
            if str_eq(self.groups[i].0.as_str(), name) {
                return Some(i);
            }
            i = i + 1;
        }
        assert(!self.has_group(name@)) by {
            if self.group_names_view().contains(name@) {
                let k = choose|k: int| 0 <= k < self.group_names_view().len() && self.group_names_view()[k] == name@;
            }
        }
        None
    }

    /// The group with this name.
    pub fn group(&self, name: &str) -> (r: Option<&ComponentGroup>)
        ensures
            r is Some <==> self.has_group(name@),
            r matches Some(g) ==> exists|i: int| 0 <= i < self.groups@.len() && self.groups@[i].0@ == name@ && self.groups@[i].1 == *g,
    {
        match self.find_group(name) {
            Some(i) => Some(&self.groups[i].1),
            None => None,
        }
    }

    /// Registers a group under a name starting with `@`, made of registered
    /// components; a group of the same name is replaced.
    pub fn register_group(&mut self, name: &str, kind: GroupKind, members: Vec<String>)
        requires
            old(self).wf(),
            name@.len() > 0 && name@[0] == '@',
            forall|i: int| 0 <= i < members@.len() ==> old(self).has_component(#[trigger] members@[i]@),
        ensures
            final(self).wf(),
            final(self).order_view() == old(self).order_view(),
            final(self).has_group(name@),
            forall|n: Seq<char>| n != name@ ==> (#[trigger] final(self).has_group(n) <==> old(self).has_group(n)),
            exists|i: int| 0 <= i < final(self).groups@.len() && final(self).groups@[i].0@ == name@
                && final(self).groups@[i].1.kind == kind && names(final(self).groups@[i].1.members@) == names(members@),
            final(self).groups@.len() == old(self).groups@.len() + if old(self).has_group(name@) {
                0int
            } else {
                1int
            },
            forall|j: int| 0 <= j < old(self).groups@.len() && old(self).groups@[j].0@ != name@
                ==> #[trigger] final(self).groups@[j] == old(self).groups@[j],
    {
        let ghost before = self.group_names_view();
        let ghost members_view = names(members@);
        let entry = (name.to_string(), ComponentGroup { kind, members });
        match self.find_group(name) {
            Some(i) => {
                self.groups.set(i, entry);
                assert(self.group_names_view() =~= before.update(i as int, name@));
                assert(forall|n: Seq<char>| n != name@ ==> (self.group_names_view().contains(n) <==> before.contains(n))) by {
                    assert forall|n: Seq<char>| n != name@ implies (self.group_names_view().contains(n) <==> before.contains(n)) by {
                        if self.group_names_view().contains(n) {
                            let k = choose|k: int| 0 <= k < self.group_names_view().len() && self.group_names_view()[k] == n;
                            assert(before[k] == n);
                        }
                        if before.contains(n) {
                            let k = choose|k: int| 0 <= k < before.len() && before[k] == n;
                            assert(self.group_names_view()[k] == n);
                        }
                    }
                }
                assert(self.group_names_view()[i as int] == name@);
            },
            None => {
                self.groups.push(entry);
                let ghost last = self.groups@.len() - 1;
                assert(self.group_names_view() =~= before.push(name@));
                assert(self.group_names_view()[last] == name@);
                assert(forall|n: Seq<char>| n != name@ ==> (self.group_names_view().contains(n) <==> before.contains(n))) by {
                    assert forall|n: Seq<char>| n != name@ implies (self.group_names_view().contains(n) <==> before.contains(n)) by {
                        if self.group_names_view().contains(n) {
                            let k = choose|k: int| 0 <= k < self.group_names_view().len() && self.group_names_view()[k] == n;
                            assert(before[k] == n);
                        }
                        if before.contains(n) {
                            let k = choose|k: int| 0 <= k < before.len() && before[k] == n;
                            assert(self.group_names_view()[k] == n);
                        }
                    }
                }
            },
        }
    }
}


/// What a configuration's returned list asks for, entry by entry.
pub enum ReturnedEntry {
    Component { name: String },
    Group { name: String },
    Align,
}

/// What a table entry of the returned list does: for a registered
/// component, replace its render function when the entry gives its own and
/// replace its configuration when the entry holds one; otherwise define a new
/// component from the entry.
pub enum TableEntryAction {
    Update { set_render: bool, set_config: bool },
    Define,
}

/// The action for a table entry named `name` in `reg`.
pub open spec fn table_action(reg: Registry, name: Seq<char>, render_overridden: bool, has_config: bool) -> TableEntryAction {
    if reg.has_component(name) {
        TableEntryAction::Update { set_render: render_overridden, set_config: has_config }
    } else {
        TableEntryAction::Define
    }
}

impl Registry {
    /// The action for a table entry named `name` whose render function is
    /// not the one handed out (`render_overridden`) and which holds a
    /// configuration (`has_config`).
    pub fn table_entry_action(&self, name: &str, render_overridden: bool, has_config: bool) -> (r: TableEntryAction)
        ensures
            r == table_action(*self, name@, render_overridden, has_config),
    {
        if self.contains(name) {
            TableEntryAction::Update { set_render: render_overridden, set_config: has_config }
        } else {
            TableEntryAction::Define
        }
    }
}

/// The message for a group name that is not registered.
pub open spec fn unknown_group_message(name: Seq<char>, known: Seq<Seq<char>>) -> Seq<char> {
    seq!['\''] + name + "' is not a known component group (known groups: "@ + join_with(known, ", "@)
        + seq![')']
}

/// The message for a component name that is not registered.
pub open spec fn unknown_component_message(name: Seq<char>) -> Seq<char> {
    seq!['\''] + name
        + "' is not a known component (no matching built-in, and a bare string can't define get_data)"@
}

/// What a string entry of the returned list means: the align marker, a
/// registered group (names starting with `@`), or a registered component;
/// anything else is an error.
pub open spec fn classify_spec(reg: Registry, name: Seq<char>, r: Result<ReturnedEntry, String>) -> bool {
    if name == ALIGN_MARKER@ {
        r matches Ok(ReturnedEntry::Align)
    } else if name.len() > 0 && name[0] == '@' {
        if reg.has_group(name) {
            r matches Ok(ReturnedEntry::Group { name: n }) && n@ == name
        } else {
            r matches Err(m) && m@ == unknown_group_message(name, reg.group_names_view())
        }
    } else if reg.has_component(name) {
        r matches Ok(ReturnedEntry::Component { name: n }) && n@ == name
    } else {
        r matches Err(m) && m@ == unknown_component_message(name)
    }
}

impl Registry {
    /// Classifies a string entry of the returned list.
    pub fn classify_entry(&self, name: &str) -> (r: Result<ReturnedEntry, String>)
        ensures
            classify_spec(*self, name@, r),
    {
        if str_eq(name, ALIGN_MARKER) {
            return Ok(ReturnedEntry::Align);
        }
        let v = chars_of(name);
        if v.len() > 0 && v[0] == '@' {
            if self.find_group(name).is_some() {
                return Ok(ReturnedEntry::Group { name: name.to_string() });
            }
            let mut known: Vec<String> = Vec::new();
            let mut i: usize = 0;
            while i < self.groups.len()
                invariant
                    i <= self.groups@.len(),
                    names(known@) == self.group_names_view().subrange(0, i as int),
                decreases self.groups@.len() - i,
            {
                let ghost before = known@;
                known.push(self.groups[i].0.clone());
                assert(names(known@) =~= names(before).push(self.groups@[i as int].0@));
                assert(self.group_names_view().subrange(0, i + 1) =~= self.group_names_view().subrange(0, i as int).push(self.groups@[i as int].0@));
                i = i + 1;
            }
            assert(self.group_names_view().subrange(0, self.groups@.len() as int) =~= self.group_names_view());
            let mut m = String::new();
            string_push(&mut m, '\'');
            push_str(&mut m, name);
            push_str(&mut m, "' is not a known component group (known groups: ");
            let joined = join_strs(&known, ", ");
            push_str(&mut m, joined.as_str());
            string_push(&mut m, ')');
            assert(m@ =~= unknown_group_message(name@, self.group_names_view()));
            return Err(m);
        }
        if self.contains(name) {
            Ok(ReturnedEntry::Component { name: name.to_string() })
        } else {
            let mut m = String::new();
            string_push(&mut m, '\'');
            push_str(&mut m, name);
            push_str(&mut m, "' is not a known component (no matching built-in, and a bare string can't define get_data)");
            assert(m@ =~= unknown_component_message(name@));
            Err(m)
        }
    }
}

/// The message for an entry of the returned list that is neither a table
/// nor a string.
pub open spec fn wrong_entry_message(kind_name: Seq<char>) -> Seq<char> {
    "expected a component (table) or a component name / \"@align\" / a group name (string) in the returned list, got "@
        + kind_name
}

pub fn wrong_entry_error(kind_name: &str) -> (m: String)
    ensures
        m@ == wrong_entry_message(kind_name@),
{
    let mut m = "expected a component (table) or a component name / \"@align\" / a group name (string) in the returned list, got ".to_string();
    push_str(&mut m, kind_name);
    m
}

/// Which member of a group to render after member `i`: none once a
/// first-of group has rendered one, else the next one if there is one.
pub fn next_group_member(kind: &GroupKind, count: usize, i: usize, rendered: bool) -> (r: Option<usize>)
    ensures
        r == if *kind == GroupKind::FirstOf && rendered {
            None
        } else if i + 1 < count {
            Some((i + 1) as usize)
        } else {
            None
        },
{
    let first_of = match kind {
        GroupKind::FirstOf => true,
        GroupKind::All => false,
    };
    if first_of && rendered {
        None
    } else if i < count && i + 1 < count {
        Some(i + 1)
    } else {
        None
    }
}

/// The fixed start of the generated annotation file.
pub const ANNOTATIONS_HEADER: &'static str = "---@meta\n-- Type annotations for Peter, generated from Rust components\n-- Don't edit manually, regenerate with `my_prompt --generate-annotations <path>`.\n\n---@type integer Exit status of the last command\n_G.last_status = 0\n---@type string Current shell bind mode (e.g. \"insert\", \"visual\", \"default\")\n_G.bind_mode = \"\"\n---@type boolean\n_G.is_transient = false\n---@type integer Terminal width in columns\n_G.term_width = 0\n\n---@return string Current working directory\nfunction _G.get_cwd() end\n\n---@param text string\n---@return integer Display width of `text`\nfunction _G.displaywidth(text) end\n\n---@alias Peter.Segment { [1]: string, [2]: string }";

pub fn header() -> (s: String)
    ensures
        s@ == ANNOTATIONS_HEADER@,
{
    ANNOTATIONS_HEADER.to_string()
}

/// A component's annotation block up to its last line: its class
/// definitions.
pub open spec fn block_classes(b: Seq<char>) -> Seq<char> {
    b.take(last_index_of(b, '\n', b.len() as int))
}

/// The last line of a component's annotation block: its overload.
pub open spec fn block_overload(b: Seq<char>) -> Seq<char> {
    b.skip(last_index_of(b, '\n', b.len() as int) + 1)
}

/// The component names quoted and joined by `|`.
pub open spec fn name_union(order: Seq<Seq<char>>) -> Seq<char> {
    join_with(order.map_values(|n: Seq<char>| seq!['"'] + n + seq!['"']), seq!['|'])
}

/// The annotation file: the header, every component's classes, the union of
/// component names, every component's overload, and `get_component`.
pub open spec fn annotations_text(order: Seq<Seq<char>>, blocks: Seq<Seq<char>>) -> Seq<char> {
    ANNOTATIONS_HEADER@ + seq!['\n'] + join_with(blocks.map_values(|b: Seq<char>| block_classes(b)), "\n\n"@)
        + "\n\n---@alias Peter.ComponentName "@ + name_union(order) + "\n\n"@ + join_with(
        blocks.map_values(|b: Seq<char>| block_overload(b)),
        "\n"@,
    ) + "\n---@param name Peter.ComponentName\n---@return any\nfunction _G.get_component(name) end\n"@
}

/// Splits a block at its last newline (`rsplit_once('\n')`).
fn split_last_line(b: &str) -> (r: (String, String))
    requires
        b@.contains('\n'),
    ensures
        r.0@ == block_classes(b@),
        r.1@ == block_overload(b@),
{
    let v = chars_of(b);
    let n = v.len();
    let mut j: usize = n;
    while j > 0 && v[j - 1] != '\n'
        invariant
            j <= n == v@.len(),
            v@ == b@,
            last_index_of(v@, '\n', n as int) == last_index_of(v@, '\n', j as int),
            forall|k: int| j <= k < n ==> v@[k] != '\n',
        decreases j,
    {
        j = j - 1;
    }
    proof {
        if j == 0 {
            let k = choose|k: int| 0 <= k < b@.len() && b@[k] == '\n';
            assert(v@[k] != '\n');
        }
    }
    assert(v@.subrange(0, j - 1) =~= v@.take(j - 1));
    assert(v@.subrange(j as int, n as int) =~= v@.skip(j as int));
    (string_from_range(&v, 0, j - 1), string_from_range(&v, j, n))
}

/// Writes the annotation file from the registered names and each
/// component's annotation block, whose last line is its overload.
pub fn annotations_from_blocks(order: &[String], blocks: &[String]) -> (s: String)
    requires
        forall|i: int| 0 <= i < blocks@.len() ==> (#[trigger] blocks@[i])@.contains('\n'),
    ensures
        s@ == annotations_text(names(order@), names(blocks@)),
{
    let mut class_blocks: Vec<String> = Vec::new();
    let mut overload_lines: Vec<String> = Vec::new();
    let mut i: usize = 0;
    let ghost bv = names(blocks@);
    while i < blocks.len()
        invariant
            i <= blocks@.len(),
            bv == names(blocks@),
            forall|k: int| 0 <= k < blocks@.len() ==> (#[trigger] blocks@[k])@.contains('\n'),
            names(class_blocks@) == bv.subrange(0, i as int).map_values(|b: Seq<char>| block_classes(b)),
            names(overload_lines@) == bv.subrange(0, i as int).map_values(|b: Seq<char>| block_overload(b)),
        decreases blocks@.len() - i,
    {
        let (classes, overload) = split_last_line(blocks[i].as_str());
        let ghost bc = class_blocks@;
        let ghost bo = overload_lines@;
        class_blocks.push(classes);
        overload_lines.push(overload);
        assert(names(class_blocks@) =~= names(bc).push(block_classes(bv[i as int])));
        assert(names(overload_lines@) =~= names(bo).push(block_overload(bv[i as int])));
        assert(bv.subrange(0, i + 1).map_values(|b: Seq<char>| block_classes(b)) =~= bv.subrange(0, i as int).map_values(|b: Seq<char>| block_classes(b)).push(block_classes(bv[i as int])));
        assert(bv.subrange(0, i + 1).map_values(|b: Seq<char>| block_overload(b)) =~= bv.subrange(0, i as int).map_values(|b: Seq<char>| block_overload(b)).push(block_overload(bv[i as int])));
        i = i + 1;
    }
    assert(bv.subrange(0, bv.len() as int) =~= bv);
    let mut quoted: Vec<String> = Vec::new();
    let mut k: usize = 0;
    let ghost ov = names(order@);
    while k < order.len()
        invariant
            k <= order@.len(),
            ov == names(order@),
            names(quoted@) == ov.subrange(0, k as int).map_values(|n: Seq<char>| seq!['"'] + n + seq!['"']),
        decreases order@.len() - k,
    {
        let mut q = String::new();
        string_push(&mut q, '"');
        push_str(&mut q, order[k].as_str());
        string_push(&mut q, '"');
        assert(ov[k as int] == order@[k as int]@);
        assert(q@ =~= seq!['"'] + ov[k as int] + seq!['"']);
        let ghost before = quoted@;
        quoted.push(q);
        assert(names(quoted@) =~= names(before).push(seq!['"'] + ov[k as int] + seq!['"']));
        assert(ov.subrange(0, k + 1).map_values(|n: Seq<char>| seq!['"'] + n + seq!['"']) =~= ov.subrange(0, k as int).map_values(|n: Seq<char>| seq!['"'] + n + seq!['"']).push(seq!['"'] + ov[k as int] + seq!['"']));
        k = k + 1;
    }
    assert(ov.subrange(0, ov.len() as int) =~= ov);
    let mut out = header();
    string_push(&mut out, '\n');
    let classes = join_strs(&class_blocks, "\n\n");
    push_str(&mut out, classes.as_str());
    push_str(&mut out, "\n\n---@alias Peter.ComponentName ");
    let union = join_strs(&quoted, "|");
    push_str(&mut out, union.as_str());
    push_str(&mut out, "\n\n");
    let overloads = join_strs(&overload_lines, "\n");
    push_str(&mut out, overloads.as_str());
    push_str(&mut out, "\n---@param name Peter.ComponentName\n---@return any\nfunction _G.get_component(name) end\n");
    proof {
        reveal_strlit("|");
    }
    assert("|"@ =~= seq!['|']);
    assert(out@ =~= annotations_text(names(order@), names(blocks@)));
    out
}

/// What the annotations know of a component's types: the class templates
/// of its data and of its configuration, where those types are described,
/// and the finished definitions of the types they name.
pub struct ComponentTypes {
    pub data_template: Option<String>,
    pub config_template: Option<String>,
    pub nested_defs: Vec<String>,
}

/// The definitions, each followed by a blank line.
pub open spec fn defs_prefix(ds: Seq<Seq<char>>) -> Seq<char>
    decreases ds.len(),
{
    if ds.len() == 0 {
        Seq::empty()
    } else {
        defs_prefix(ds.drop_last()) + ds.last() + "\n\n"@
    }
}

/// A described type's class under its full name, followed by a blank line;
/// nothing for a type that is not described.
pub open spec fn class_part(template: Option<String>, full_name: Seq<char>) -> Seq<char> {
    match template {
        Some(t) => replace_all(t@, FULL_NAME_PLACEHOLDER@, full_name) + "\n\n"@,
        None => Seq::empty(),
    }
}

/// How a field refers to a type: by its full name when it is described,
/// as `any` otherwise.
pub open spec fn class_ref(template: Option<String>, full_name: Seq<char>) -> Seq<char> {
    match template {
        Some(_) => full_name,
        None => "any"@,
    }
}

/// The component's own class and the overload of `get_component` for its
/// name.
pub open spec fn class_head(name: Seq<char>, pascal: Seq<char>, data_ty: Seq<char>, config_ty: Seq<char>) -> Seq<char> {
    "---@class Peter."@ + pascal + "\n---@field name string\n---@field render fun(data: "@ + data_ty
        + "): Peter.Segment[]\n---@field config "@ + config_ty + "\n---@overload fun(name: \""@ + name
        + "\"): Peter."@ + pascal
}

pub open spec fn data_class_name(pascal: Seq<char>) -> Seq<char> {
    "Peter."@ + pascal + ".Data"@
}

pub open spec fn config_class_name(pascal: Seq<char>) -> Seq<char> {
    "Peter."@ + pascal + ".Config"@
}

/// A component's annotation block: the definitions of the types its data
/// and configuration name, the classes of its data and configuration, then
/// its own class, named after the component in PascalCase, whose last line
/// is the overload of `get_component` for its name.
pub open spec fn component_block(name: Seq<char>, types: Option<ComponentTypes>) -> Seq<char> {
    let p = pascal_case(name);
    match types {
        Some(t) => defs_prefix(names(t.nested_defs@)) + class_part(t.data_template, data_class_name(p))
            + class_part(t.config_template, config_class_name(p)) + class_head(
            name,
            p,
            class_ref(t.data_template, data_class_name(p)),
            class_ref(t.config_template, config_class_name(p)),
        ),
        None => class_head(name, p, "any"@, "any"@),
    }
}

fn push_class_part(s: &mut String, template: &Option<String>, full_name: &str)
    ensures
        final(s)@ == old(s)@ + class_part(*template, full_name@),
{
    match template {
        Some(t) => {
            let def = lua_class_def(t.as_str(), full_name);
            push_str(s, def.as_str());
            push_str(s, "\n\n");
        },
        None => {
            assert(old(s)@ + class_part(*template, full_name@) =~= old(s)@);
        },
    }
}

fn push_class_head(s: &mut String, name: &str, pascal: &str, data_ty: &str, config_ty: &str)
    ensures
        final(s)@ == old(s)@ + class_head(name@, pascal@, data_ty@, config_ty@),
        final(s)@.contains('\n'),
{
    push_str(s, "---@class Peter.");
    push_str(s, pascal);
    let ghost k = s@.len();
    push_str(s, "\n---@field name string\n---@field render fun(data: ");
    proof {
        reveal_strlit("\n---@field name string\n---@field render fun(data: ");
        assert(s@[k as int] == '\n');
    }
    push_str(s, data_ty);
    push_str(s, "): Peter.Segment[]\n---@field config ");
    push_str(s, config_ty);
    push_str(s, "\n---@overload fun(name: \"");
    push_str(s, name);
    push_str(s, "\"): Peter.");
    push_str(s, pascal);
    assert(s@[k as int] == '\n');
    assert(s@ =~= old(s)@ + class_head(name@, pascal@, data_ty@, config_ty@));
}

/// The annotation block of the component registered under `name`, with
/// what is known of its types.
pub fn annotation_block(name: &str, types: Option<&ComponentTypes>) -> (s: String)
    ensures
        s@ == component_block(name@, match types {
            Some(t) => Some(*t),
            None => None,
        }),
        s@.contains('\n'),
{
    let pascal = to_pascal_case(name);
    let mut s = String::new();
    match types {
        Some(t) => {
            let mut i: usize = 0;
            let ghost ds = names(t.nested_defs@);
            assert(ds.subrange(0, 0) =~= Seq::<Seq<char>>::empty());
            assert(s@ =~= defs_prefix(ds.subrange(0, 0)));
            while i < t.nested_defs.len()
                invariant
                    i <= t.nested_defs@.len(),
                    ds == names(t.nested_defs@),
                    s@ == defs_prefix(ds.subrange(0, i as int)),
                decreases t.nested_defs@.len() - i,
            {
                push_str(&mut s, t.nested_defs[i].as_str());
                push_str(&mut s, "\n\n");
                assert(ds.subrange(0, i + 1).drop_last() =~= ds.subrange(0, i as int));
                assert(ds.subrange(0, i + 1).last() == t.nested_defs@[i as int]@);
                i = i + 1;
            }
            assert(ds.subrange(0, ds.len() as int) =~= ds);
            let mut data_name = "Peter.".to_string();
            push_str(&mut data_name, pascal.as_str());
            push_str(&mut data_name, ".Data");
            let mut config_name = "Peter.".to_string();
            push_str(&mut config_name, pascal.as_str());
            push_str(&mut config_name, ".Config");
            assert(data_name@ =~= data_class_name(pascal@));
            assert(config_name@ =~= config_class_name(pascal@));
            push_class_part(&mut s, &t.data_template, data_name.as_str());
            push_class_part(&mut s, &t.config_template, config_name.as_str());
            let data_ty = match &t.data_template {
                Some(_) => data_name.clone(),
                None => "any".to_string(),
            };
            let config_ty = match &t.config_template {
                Some(_) => config_name.clone(),
                None => "any".to_string(),
            };
            push_class_head(&mut s, name, pascal.as_str(), data_ty.as_str(), config_ty.as_str());
        },
        None => {
            push_class_head(&mut s, name, pascal.as_str(), "any", "any");
        },
    }
    s
}

/// What is known of the types of the component at position `i`: the
/// description given for it, if any.
pub open spec fn types_at(types: Seq<ComponentTypes>, i: int) -> Option<ComponentTypes> {
    if 0 <= i < types.len() {
        Some(types[i])
    } else {
        None
    }
}

impl Registry {
    /// The annotation file for the registered components, in registration
    /// order; `types[i]` describes the types of the `i`-th registered
    /// component, and a component past the end of `types` has none.
    pub fn generate_lua_annotations(&self, types: &[ComponentTypes]) -> (s: String)
        ensures
            s@ == annotations_text(
                self.order_view(),
                Seq::new(
                    self.order_view().len(),
                    |i: int| component_block(self.order_view()[i], types_at(types@, i)),
                ),
            ),
    {
        let mut blocks: Vec<String> = Vec::new();
        let mut i: usize = 0;
        let ghost ov = self.order_view();
        let ghost want = Seq::new(ov.len(), |i: int| component_block(ov[i], types_at(types@, i)));
        while i < self.order.len()
            invariant
                i <= self.order@.len(),
                ov == self.order_view(),
                want == Seq::new(ov.len(), |i: int| component_block(ov[i], types_at(types@, i))),
                names(blocks@) == want.subrange(0, i as int),
                forall|j: int| 0 <= j < blocks@.len() ==> (#[trigger] blocks@[j])@.contains('\n'),
            decreases self.order@.len() - i,
        {
            let t = if i < types.len() {
                Some(&types[i])
            } else {
                None
            };
            let b = annotation_block(self.order[i].as_str(), t);
            let ghost before = blocks@;
            blocks.push(b);
            assert(ov[i as int] == self.order@[i as int]@);
            assert(names(blocks@) =~= names(before).push(want[i as int]));
            assert(want.subrange(0, i + 1) =~= want.subrange(0, i as int).push(want[i as int]));
            i = i + 1;
        }
        assert(want.subrange(0, want.len() as int) =~= want);
        annotations_from_blocks(&self.order, &blocks)
    }
}

/// Returning a registered component's snapshot unmodified does what returning
/// its name does: the component is listed under its name and keeps its render
/// function; the snapshot at most hands the component its own configuration
/// back. A component whose name starts with `@` is read as a group name
/// instead, so it is left out.
pub proof fn law_unmodified_snapshot_is_the_name(
    reg: Registry,
    name: Seq<char>,
    has_config: bool,
    by_name: Result<ReturnedEntry, String>,
)
    requires
        reg.has_component(name),
        !(name.len() > 0 && name[0] == '@'),
        classify_spec(reg, name, by_name),
    ensures
        by_name matches Ok(ReturnedEntry::Component { name: n }) && n@ == name,
        table_action(reg, name, false, has_config) == (TableEntryAction::Update {
            set_render: false,
            set_config: has_config,
        }),
{
    reveal_strlit("@align");
    assert(name != ALIGN_MARKER@) by {
        if name == ALIGN_MARKER@ {
            assert(ALIGN_MARKER@[0] == '@');
        }
    }
}

/// A table entry for a registered component replaces its render function
/// exactly when it gives its own, and its configuration exactly when it
/// holds one, each whatever the other is; an entry for any other name
/// defines a new component.
pub proof fn law_table_entry_flags_independent(reg: Registry, name: Seq<char>, render_overridden: bool, has_config: bool)
    ensures
        reg.has_component(name) ==> (table_action(reg, name, render_overridden, has_config) matches
            TableEntryAction::Update { set_render, set_config }
            && set_render == render_overridden && set_config == has_config),
        !reg.has_component(name) ==> table_action(reg, name, render_overridden, has_config) is Define,
{
}

} // verus!
