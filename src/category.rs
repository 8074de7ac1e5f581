//! Classifying file paths into fixed buckets, first match wins.
use vstd::prelude::*;
use vstd::string::StringExecFns;
use crate::conv::{char_vec, lowercase, lower_of};
use crate::tally::{bump, Tally};
use crate::text::{contains, contains_str};

verus! {

/// The buckets a scanned file path falls into.
#[derive(PartialEq, Eq, Structural, Clone, Copy, Debug)]
pub enum Category {
    SystemDriver,
    System32Core,
    SysWow64,
    DotNet,
    AntiCheat,
    WindowsApps,
    UserData,
    ComponentStore,
    Other,
}

/// The bucket of a lower-cased path: the first rule that matches, in order.
pub open spec fn category_of(lower: Seq<char>) -> Category {
    if contains(lower, "system32\\drivers"@) || contains(lower, "syswow64\\drivers"@) {
        Category::SystemDriver
    } else if contains(lower, "system32"@) {
        Category::System32Core
    } else if contains(lower, "syswow64"@) {
        Category::SysWow64
    } else if contains(lower, "microsoft.net"@) || contains(lower, "dotnet"@) {
        Category::DotNet
    } else if contains(lower, "anti cheat expert"@) || contains(lower, "sguard"@) || contains(
        lower,
        "ace"@,
    ) || contains(lower, "eac"@) {
        Category::AntiCheat
    } else if contains(lower, "windows\\systemapps"@) || contains(lower, "windowsapps"@) {
        Category::WindowsApps
    } else if contains(lower, "programdata"@) || contains(lower, "appdata"@) {
        Category::UserData
    } else if contains(lower, "windows\\winsxs"@) {
        Category::ComponentStore
    } else {
        Category::Other
    }
}

/// The bucket of a path, matched without regard to case.
pub open spec fn path_category(path: Seq<char>) -> Category {
    category_of(lower_of(path))
}

/// The label under which a bucket is counted.
pub open spec fn label_of(c: Category) -> Seq<char> {
    match c {
        Category::SystemDriver => "System Driver"@,
        Category::System32Core => "System32 Core"@,
        Category::SysWow64 => "SysWOW64 (32-bit)"@,
        Category::DotNet => ".NET Component"@,
        Category::AntiCheat => "Anti-Cheat Component"@,
        Category::WindowsApps => "WindowsApps"@,
        Category::UserData => "User Data Directory"@,
        Category::ComponentStore => "Component Store"@,
        Category::Other => "Other System File"@,
    }
}

impl Category {
    /// The label under which this bucket is counted.
    pub fn label(&self) -> (r: String)
        ensures
            r@ == label_of(*self),
    {
        let s: &str = match self {
            Category::SystemDriver => "System Driver",
            Category::System32Core => "System32 Core",
            Category::SysWow64 => "SysWOW64 (32-bit)",
            Category::DotNet => ".NET Component",
            Category::AntiCheat => "Anti-Cheat Component",
            Category::WindowsApps => "WindowsApps",
            Category::UserData => "User Data Directory",
            Category::ComponentStore => "Component Store",
            Category::Other => "Other System File",
        };
        String::from_str(s)
    }
}

/// The bucket of a path that is already lower-cased.
pub fn categorize_lower(lower: &[char]) -> (r: Category)
    ensures
        r == category_of(lower@),
{
    if contains_str(lower, "system32\\drivers") || contains_str(lower, "syswow64\\drivers") {
        Category::SystemDriver
    } else if contains_str(lower, "system32") {
        Category::System32Core
    } else if contains_str(lower, "syswow64") {
        Category::SysWow64
    } else if contains_str(lower, "microsoft.net") || contains_str(lower, "dotnet") {
        Category::DotNet
    } else if contains_str(lower, "anti cheat expert") || contains_str(lower, "sguard")
        || contains_str(lower, "ace") || contains_str(lower, "eac") {
        Category::AntiCheat
    } else if contains_str(lower, "windows\\systemapps") || contains_str(lower, "windowsapps") {
        Category::WindowsApps
    } else if contains_str(lower, "programdata") || contains_str(lower, "appdata") {
        Category::UserData
    } else if contains_str(lower, "windows\\winsxs") {
        Category::ComponentStore
    } else {
        Category::Other
    }
}

/// The bucket of a lower-cased path given as a string.
pub fn categorize(lower: &str) -> (r: Category)
    ensures
        r == category_of(lower@),
{
    let v = char_vec(lower);
    categorize_lower(v.as_slice())
}

/// The bucket of any path: it is lower-cased, then matched.
pub fn category_of_path(path: &str) -> (r: Category)
    ensures
        r == path_category(path@),
{
    let lower = lowercase(path);
    categorize(lower.as_str())
}

/// Count one more path of `file_path`'s bucket in `categories`.
pub fn categorize_target(file_path: &str, categories: &mut Tally)
    requires
        old(categories).wf(),
        forall|k: Seq<char>| old(categories)@.contains_key(k) ==> old(categories)@[k] < usize::MAX,
    ensures
        final(categories).wf(),
        final(categories)@ == bump(old(categories)@, label_of(path_category(file_path@))),
{
    let label = category_of_path(file_path).label();
    categories.increment(label);
}

/// Rules are tried in order: a path that names a drivers directory is a
/// driver, even though it also names `system32`.
pub proof fn lemma_drivers_first(lower: Seq<char>)
    requires
        contains(lower, "system32\\drivers"@) || contains(lower, "syswow64\\drivers"@),
    ensures
        category_of(lower) == Category::SystemDriver,
        category_of(lower) != Category::System32Core,
{
}

/// Every path falls in exactly one bucket, and the same path always in the same.
pub proof fn lemma_category_total(a: Seq<char>, b: Seq<char>)
    requires
        a == b,
    ensures
        path_category(a) == path_category(b),
        label_of(path_category(a)).len() > 0,
{
    reveal_strlit("System Driver");
    reveal_strlit("System32 Core");
    reveal_strlit("SysWOW64 (32-bit)");
    reveal_strlit(".NET Component");
    reveal_strlit("Anti-Cheat Component");
    reveal_strlit("WindowsApps");
    reveal_strlit("User Data Directory");
    reveal_strlit("Component Store");
    reveal_strlit("Other System File");
}

} // verus!
