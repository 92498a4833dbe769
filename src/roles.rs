//! Accessibility roles of UI elements and their textual names.
use vstd::prelude::*;
use vstd::string::StringSliceAdditionalSpecFns;
use vstd::utf8::*;

verus! {

broadcast use vstd::slice::group_slice_axioms;

/// Role that an element exposes to assistive technology.
#[derive(Clone, Copy, Debug, PartialEq, Eq, Structural)]
pub enum AccessibleRole {
    Unknown,
    Button,
    Checkbox,
    Combobox,
    List,
    Slider,
    Spinbox,
    Tab,
    TabList,
    Text,
    Table,
    Tree,
    ProgressIndicator,
    TextInput,
    Switch,
    ListItem,
    TabPanel,
    Groupbox,
    Image,
    RadioButton,
}

/// The name of each role: lower case, words joined by `-`.
pub open spec fn role_name(role: AccessibleRole) -> Seq<char> {
    match role {
        AccessibleRole::Unknown => "unknown"@,
        AccessibleRole::Button => "button"@,
        AccessibleRole::Checkbox => "checkbox"@,
        AccessibleRole::Combobox => "combobox"@,
        AccessibleRole::List => "list"@,
        AccessibleRole::Slider => "slider"@,
        AccessibleRole::Spinbox => "spinbox"@,
        AccessibleRole::Tab => "tab"@,
        AccessibleRole::TabList => "tab-list"@,
        AccessibleRole::Text => "text"@,
        AccessibleRole::Table => "table"@,
        AccessibleRole::Tree => "tree"@,
        AccessibleRole::ProgressIndicator => "progress-indicator"@,
        AccessibleRole::TextInput => "text-input"@,
        AccessibleRole::Switch => "switch"@,
        AccessibleRole::ListItem => "list-item"@,
        AccessibleRole::TabPanel => "tab-panel"@,
        AccessibleRole::Groupbox => "groupbox"@,
        AccessibleRole::Image => "image"@,
        AccessibleRole::RadioButton => "radio-button"@,
    }
}

/// Whether two strings hold the same characters, compared byte by byte.
fn str_equal(a: &str, b: &str) -> (r: bool)
    ensures
        r == (a@ == b@),
{
    let x = a.as_bytes();
    let y = b.as_bytes();
    proof {
        encode_utf8_decode_utf8(a@);
        encode_utf8_decode_utf8(b@);
    }
    if x.len() != y.len() {
        return false;
    }
    let mut i: usize = 0;
    while i < x.len()
        invariant
            x@ == a.spec_bytes(),
            y@ == b.spec_bytes(),
            x@.len() == y@.len(),
            i <= x@.len(),
            forall|j: int| 0 <= j < i ==> x@[j] == y@[j],
        decreases x@.len() - i,
    {
        if x[i] != y[i] {
            return false;
        }
        i += 1;
    }
    assert(x@ =~= y@);
    true
}

/// The name of a role.
pub fn accessible_role_to_string(role: AccessibleRole) -> (s: &'static str)
    ensures
        s@ == role_name(role),
{
    match role {
        AccessibleRole::Unknown => "unknown",
        AccessibleRole::Button => "button",
        AccessibleRole::Checkbox => "checkbox",
        AccessibleRole::Combobox => "combobox",
        AccessibleRole::List => "list",
        AccessibleRole::Slider => "slider",
        AccessibleRole::Spinbox => "spinbox",
        AccessibleRole::Tab => "tab",
        AccessibleRole::TabList => "tab-list",
        AccessibleRole::Text => "text",
        AccessibleRole::Table => "table",
        AccessibleRole::Tree => "tree",
        AccessibleRole::ProgressIndicator => "progress-indicator",
        AccessibleRole::TextInput => "text-input",
        AccessibleRole::Switch => "switch",
        AccessibleRole::ListItem => "list-item",
        AccessibleRole::TabPanel => "tab-panel",
        AccessibleRole::Groupbox => "groupbox",
        AccessibleRole::Image => "image",
        AccessibleRole::RadioButton => "radio-button",
    }
}

/// The role with the given name (case sensitive); `None` for any other string.
pub fn string_to_accessible_role(s: &str) -> (r: Option<AccessibleRole>)
    ensures
        match r {
            Some(role) => role_name(role) == s@,
            None => forall|role: AccessibleRole| role_name(role) != s@,
        },
{
    if str_equal(s, "unknown") {
        return Some(AccessibleRole::Unknown);
    }
    if str_equal(s, "button") {
        return Some(AccessibleRole::Button);
    }
    if str_equal(s, "checkbox") {
        return Some(AccessibleRole::Checkbox);
    }
    if str_equal(s, "combobox") {
        return Some(AccessibleRole::Combobox);
    }
    if str_equal(s, "list") {
        return Some(AccessibleRole::List);
    }
    if str_equal(s, "slider") {
        return Some(AccessibleRole::Slider);
    }
    if str_equal(s, "spinbox") {
        return Some(AccessibleRole::Spinbox);
    }
    if str_equal(s, "tab") {
        return Some(AccessibleRole::Tab);
    }
    if str_equal(s, "tab-list") {
        return Some(AccessibleRole::TabList);
    }
    if str_equal(s, "text") {
        return Some(AccessibleRole::Text);
    }
    if str_equal(s, "table") {
        return Some(AccessibleRole::Table);
    }
    if str_equal(s, "tree") {
        return Some(AccessibleRole::Tree);
    }
    if str_equal(s, "progress-indicator") {
        return Some(AccessibleRole::ProgressIndicator);
    }
    if str_equal(s, "text-input") {
        return Some(AccessibleRole::TextInput);
    }
    if str_equal(s, "switch") {
        return Some(AccessibleRole::Switch);
    }
    if str_equal(s, "list-item") {
        return Some(AccessibleRole::ListItem);
    }
    if str_equal(s, "tab-panel") {
        return Some(AccessibleRole::TabPanel);
    }
    if str_equal(s, "groupbox") {
        return Some(AccessibleRole::Groupbox);
    }
    if str_equal(s, "image") {
        return Some(AccessibleRole::Image);
    }
    if str_equal(s, "radio-button") {
        return Some(AccessibleRole::RadioButton);
    }
    None
}

/// Distinct roles have distinct names, so a name read back gives the role
/// it was made from.
pub proof fn lemma_role_name_round_trip(a: AccessibleRole, b: AccessibleRole)
    ensures
        role_name(a) == role_name(b) <==> a == b,
{
    reveal_strlit("unknown");
    reveal_strlit("button");
    reveal_strlit("checkbox");
    reveal_strlit("combobox");
    reveal_strlit("list");
    reveal_strlit("slider");
    reveal_strlit("spinbox");
    reveal_strlit("tab");
    reveal_strlit("tab-list");
    reveal_strlit("text");
    reveal_strlit("table");
    reveal_strlit("tree");
    reveal_strlit("progress-indicator");
    reveal_strlit("text-input");
    reveal_strlit("switch");
    reveal_strlit("list-item");
    reveal_strlit("tab-panel");
    reveal_strlit("groupbox");
    reveal_strlit("image");
    reveal_strlit("radio-button");
    if role_name(a) == role_name(b) {
        assert(role_name(a).len() == role_name(b).len());
        assert(role_name(a)[0] == role_name(b)[0]);
        assert(role_name(a)[1] == role_name(b)[1]);
    }
}

} // verus!
