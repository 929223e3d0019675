//! The change model: raw OS filesystem notifications are classified into
//! created / modified / removed, a modification of a path that has vanished
//! counts as a removal, and events on the configuration file itself are
//! routed to a configuration reload instead of the generic stream.

use vstd::prelude::*;
use vstd::string::StringExecFns;
use crate::model::CognitioConfig;
use crate::text::str_eq;

verus! {

/// The kinds a raw OS notification can have.
#[derive(Debug, Clone, Copy, PartialEq, Eq, Structural)]
pub enum RawEventKind {
    Create,
    Remove,
    Modify,
    Other,
}

/// The logical change model.
#[derive(Debug, Clone, Copy, PartialEq, Eq, Structural)]
pub enum ChangeKind {
    Created,
    Modified,
    Removed,
}

/// A normalized change notification: the affected path and the label of
/// the change.
#[derive(Debug, Clone, PartialEq)]
pub struct FileEvent {
    pub path: String,
    pub event: String,
}

/// What the presentation layer is handed for a generic change.
#[derive(Debug, Clone, PartialEq)]
pub struct FileChangedPayload {
    pub path: String,
    pub event: String,
}

/// What the presentation layer is handed when the configuration itself
/// changed: the freshly loaded configuration.
#[derive(Debug, Clone, PartialEq)]
pub struct CognitioConfigChangedPayload {
    pub config: CognitioConfig,
}

/// How a raw notification kind maps into the change model, given whether
/// the affected path still exists: creations and removals map directly, a
/// modification of a vanished path is a removal, and any other kind yields
/// nothing.
pub open spec fn spec_classify(kind: RawEventKind, path_exists: bool) -> Option<ChangeKind> {
    match kind {
        RawEventKind::Create => Some(ChangeKind::Created),
        RawEventKind::Remove => Some(ChangeKind::Removed),
        RawEventKind::Modify => if path_exists {
            Some(ChangeKind::Modified)
        } else {
            Some(ChangeKind::Removed)
        },
        RawEventKind::Other => None,
    }
}

/// Classifies a raw notification kind, given whether the affected path
/// still exists at classification time.
pub fn classify_notification(kind: &RawEventKind, path_exists: bool) -> (r: Option<ChangeKind>)
    ensures
        r == spec_classify(*kind, path_exists),
{
    match kind {
        RawEventKind::Create => Some(ChangeKind::Created),
        RawEventKind::Remove => Some(ChangeKind::Removed),
        RawEventKind::Modify => if path_exists {
            Some(ChangeKind::Modified)
        } else {
            Some(ChangeKind::Removed)
        },
        RawEventKind::Other => None,
    }
}

/// A modification noticed for a path that no longer exists at
/// classification time is a removal, never a modification.
pub proof fn lemma_modify_of_vanished_path_is_removed()
    ensures
        spec_classify(RawEventKind::Modify, false) == Some(ChangeKind::Removed),
        spec_classify(RawEventKind::Modify, false) != Some(ChangeKind::Modified),
{
}

/// Relies on std::path::Path::exists: whether the path exists on disk at
/// the moment of the call. Nothing is promised of the answer; callers
/// state what holds of every outcome.
#[verifier::external_body]
pub fn check_if_path_exists(path_str: &str) -> bool {
    std::path::Path::new(path_str).exists()
}

/// Classifies a raw notification about `path`, re-checking the path's
/// existence to tell a true modification from a deletion that surfaced as
/// a modification. The existence check is inherently racy, so for a
/// modification either answer may come back; every other kind is
/// classified without consulting the filesystem.
pub fn classify_fs_notification(kind: &RawEventKind, path: &str) -> (r: Option<ChangeKind>)
    ensures
        *kind is Create ==> r == Some(ChangeKind::Created),
        *kind is Remove ==> r == Some(ChangeKind::Removed),
        *kind is Modify ==> (r == Some(ChangeKind::Modified) || r == Some(ChangeKind::Removed)),
        *kind is Other ==> r is None,
        exists|e: bool| r == spec_classify(*kind, e),
{
    let path_exists = check_if_path_exists(path);
    let r = classify_notification(kind, path_exists);
    proof {
        assert(r == spec_classify(*kind, path_exists));
    }
    r
}

/// The label a change kind carries on the wire.
pub open spec fn spec_event_label(kind: ChangeKind) -> Seq<char> {
    match kind {
        ChangeKind::Created => "create"@,
        ChangeKind::Modified => "modify"@,
        ChangeKind::Removed => "remove"@,
    }
}

/// Produces the label of a change kind.
pub fn event_label(kind: &ChangeKind) -> (r: String)
    ensures
        r@ == spec_event_label(*kind),
{
    match kind {
        ChangeKind::Created => String::from_str("create"),
        ChangeKind::Modified => String::from_str("modify"),
        ChangeKind::Removed => String::from_str("remove"),
    }
}

/// Builds the change notification for a path: the path itself and the
/// label of its change kind.
pub fn make_file_event(path: String, kind: &ChangeKind) -> (e: FileEvent)
    ensures
        e.path == path,
        e.event@ == spec_event_label(*kind),
{
    FileEvent { path, event: event_label(kind) }
}

/// Where a classified event goes: to a configuration reload, or onward to
/// the presentation layer unchanged.
#[derive(Debug, PartialEq)]
pub enum RoutedEvent {
    ConfigReload,
    FileChanged(FileEvent),
}

/// How an event is routed: one whose path equals the configuration file's
/// path asks for a reload and is not forwarded; any other event is
/// forwarded unchanged.
pub open spec fn spec_route_event(event: FileEvent, config_path: Seq<char>) -> RoutedEvent {
    if event.path@ == config_path {
        RoutedEvent::ConfigReload
    } else {
        RoutedEvent::FileChanged(event)
    }
}

/// Routes a classified event against the configuration file's path.
pub fn route_event(event: FileEvent, config_path: &str) -> (r: RoutedEvent)
    ensures
        r == spec_route_event(event, config_path@),
{
    if str_eq(event.path.as_str(), config_path) {
        RoutedEvent::ConfigReload
    } else {
        RoutedEvent::FileChanged(event)
    }
}

/// A notification whose path equals the configuration file's path yields
/// exactly a configuration reload and no generic change event; any other
/// notification yields the change event unchanged and no reload.
pub proof fn lemma_config_path_isolation(event: FileEvent, config_path: Seq<char>)
    ensures
        event.path@ == config_path ==> spec_route_event(event, config_path)
            == RoutedEvent::ConfigReload,
        event.path@ != config_path ==> spec_route_event(event, config_path)
            == RoutedEvent::FileChanged(event),
{
}

/// Routing never mixes events up: a forwarded change event is the arriving
/// event itself, its path and label untouched, so every delivered event is
/// attributable to the path that produced it.
pub proof fn lemma_route_preserves_event(event: FileEvent, config_path: Seq<char>)
    ensures
        spec_route_event(event, config_path) is FileChanged ==> spec_route_event(
            event,
            config_path,
        )->FileChanged_0 == event,
{
}

/// What a reload attempt leaves behind: the freshly loaded configuration
/// where the load succeeded, the previously loaded one where it failed.
pub open spec fn spec_after_reload(
    current: CognitioConfig,
    loaded: Option<CognitioConfig>,
) -> CognitioConfig {
    match loaded {
        Some(c) => c,
        None => current,
    }
}

/// Applies a reload attempt: a failed reload retains the previously loaded
/// configuration rather than replacing it with a partial one.
pub fn apply_config_reload(current: CognitioConfig, loaded: Option<CognitioConfig>) -> (r:
    CognitioConfig)
    ensures
        r == spec_after_reload(current, loaded),
{
    match loaded {
        Some(c) => c,
        None => current,
    }
}

} // verus!
