//! How a shared library becomes a provider, or does not.
//!
//! Each candidate file goes through the same steps: it is opened, asked for
//! the version of the contract that it speaks, and, where that is the
//! version the host speaks, asked to create its provider. The steps that
//! touch the dynamic linker are taken by whoever drives the loading; what is
//! decided here is which step comes next and what its outcome means.

use vstd::prelude::*;
use crate::discovery::{is_candidate, names_dylib, Platform};
use crate::error::LoadError;
use crate::provider::PROVIDER_VERSION;

verus! {

/// Why a candidate was left out.
#[derive(Clone, Copy, Debug, PartialEq, Eq)]
pub enum SkipReason {
    /// The library does not export the version function: it is some other
    /// shared library.
    NotAPlugin,
    /// The plugin speaks another version of the contract.
    UnsupportedVersion { version: i32 },
}

/// How far a candidate has come.
#[derive(Clone, Copy, Debug, PartialEq, Eq)]
pub enum CandidateState {
    /// Found in a scanned directory.
    Discovered,
    /// Opened as a dynamic library.
    Opened,
    /// Asked for its version. `None` stands for a library without the
    /// version function.
    VersionChecked { version: Option<i32> },
    /// Left out and unloaded again.
    Skipped { reason: SkipReason },
    /// Initialized: its provider exists.
    Initialized,
}

/// What the driver does next for a candidate.
#[derive(Clone, Copy, Debug, PartialEq, Eq)]
pub enum ProbeAction {
    /// Open the file as a dynamic library.
    OpenLibrary,
    /// Look up the version function and call it.
    QueryVersion,
    /// Look up the init function and call it.
    InitProvider,
    /// Unload the library: it will not be used.
    DiscardLibrary,
}

/// What came of the driver's last action.
#[derive(Debug)]
pub enum ProbeEvent {
    /// The library is open.
    LibraryOpened,
    /// The file could not be opened as a dynamic library.
    OpenFailed { source: libloading::Error },
    /// The library does not export the version function.
    VersionMissing,
    /// The version function returned this.
    VersionReported { version: i32 },
    /// The init function returned a provider.
    ProviderInitialized,
    /// The init function could not be found.
    InitFailed { source: libloading::Error },
    /// The library is unloaded.
    LibraryDiscarded,
}

/// Whether a plugin that reports `version` can be initialized.
pub open spec fn supported(version: Option<i32>) -> bool {
    version == Some(PROVIDER_VERSION)
}

/// The action that a state asks for. Terminal states ask for none.
pub open spec fn action_of(state: CandidateState) -> Option<ProbeAction> {
    match state {
        CandidateState::Discovered => Some(ProbeAction::OpenLibrary),
        CandidateState::Opened => Some(ProbeAction::QueryVersion),
        CandidateState::VersionChecked { version } => if supported(version) {
            Some(ProbeAction::InitProvider)
        } else {
            Some(ProbeAction::DiscardLibrary)
        },
        CandidateState::Skipped { .. } => None,
        CandidateState::Initialized => None,
    }
}

/// The action whose outcome an event reports.
pub open spec fn answers(event: ProbeEvent) -> ProbeAction {
    match event {
        ProbeEvent::LibraryOpened => ProbeAction::OpenLibrary,
        ProbeEvent::OpenFailed { .. } => ProbeAction::OpenLibrary,
        ProbeEvent::VersionMissing => ProbeAction::QueryVersion,
        ProbeEvent::VersionReported { .. } => ProbeAction::QueryVersion,
        ProbeEvent::ProviderInitialized => ProbeAction::InitProvider,
        ProbeEvent::InitFailed { .. } => ProbeAction::InitProvider,
        ProbeEvent::LibraryDiscarded => ProbeAction::DiscardLibrary,
    }
}

/// Whether an event can follow a state: whether it reports the outcome of
/// the action that the state asked for.
pub open spec fn accepts(state: CandidateState, event: ProbeEvent) -> bool {
    action_of(state) == Some(answers(event))
}

/// Whether an event ends the loading of all providers.
pub open spec fn aborts(event: ProbeEvent) -> bool {
    event is OpenFailed || event is InitFailed
}

/// Why a candidate whose version check gave `version` is left out.
pub open spec fn skip_reason(version: Option<i32>) -> SkipReason {
    match version {
        None => SkipReason::NotAPlugin,
        Some(version) => SkipReason::UnsupportedVersion { version },
    }
}

/// The state that follows `state` on `event`, for an event that the state
/// accepts and that does not abort the loading.
pub open spec fn next_state(state: CandidateState, event: ProbeEvent) -> CandidateState {
    match event {
        ProbeEvent::LibraryOpened => CandidateState::Opened,
        ProbeEvent::VersionMissing => CandidateState::VersionChecked { version: None },
        ProbeEvent::VersionReported { version } => CandidateState::VersionChecked {
            version: Some(version),
        },
        ProbeEvent::ProviderInitialized => CandidateState::Initialized,
        ProbeEvent::LibraryDiscarded => match state {
            CandidateState::VersionChecked { version } => CandidateState::Skipped {
                reason: skip_reason(version),
            },
            _ => state,
        },
        _ => state,
    }
}

/// The error with which an aborting event ends the loading.
pub open spec fn abort_error(event: ProbeEvent) -> LoadError {
    match event {
        ProbeEvent::OpenFailed { source } => LoadError::LibloadingError { source },
        ProbeEvent::InitFailed { source } => LoadError::LibloadingError { source },
        _ => arbitrary(),
    }
}

/// Where a candidate stands after a run of events, if each of them was
/// accepted in its turn and none aborted the loading.
pub open spec fn run(state: CandidateState, events: Seq<ProbeEvent>) -> Option<CandidateState>
    decreases events.len(),
{
    if events.len() == 0 {
        Some(state)
    } else {
        match run(state, events.drop_last()) {
            None => None,
            Some(reached) => if accepts(reached, events.last()) && !aborts(events.last()) {
                Some(next_state(reached, events.last()))
            } else {
                None
            },
        }
    }
}

impl CandidateState {
    /// Whether nothing more happens to the candidate.
    pub fn is_terminal(&self) -> (terminal: bool)
        ensures
            terminal == (action_of(*self) is None),
            terminal == (*self is Skipped || *self is Initialized),
    {
        match self {
            CandidateState::Skipped { .. } => true,
            CandidateState::Initialized => true,
            _ => false,
        }
    }

    /// The action that the driver takes next, if any is left.
    pub fn next_action(&self) -> (action: Option<ProbeAction>)
        ensures
            action == action_of(*self),
    {
        match self {
            CandidateState::Discovered => Some(ProbeAction::OpenLibrary),
            CandidateState::Opened => Some(ProbeAction::QueryVersion),
            CandidateState::VersionChecked { version } => match version {
                Some(version) => if *version == PROVIDER_VERSION {
                    Some(ProbeAction::InitProvider)
                } else {
                    Some(ProbeAction::DiscardLibrary)
                },
                None => Some(ProbeAction::DiscardLibrary),
            },
            CandidateState::Skipped { .. } => None,
            CandidateState::Initialized => None,
        }
    }

    /// Whether `event` reports the outcome of the action that this state
    /// asked for.
    pub fn accepts(&self, event: &ProbeEvent) -> (accepted: bool)
        ensures
            accepted == accepts(*self, *event),
    {
        match self.next_action() {
            None => false,
            Some(action) => match (action, event) {
                (ProbeAction::OpenLibrary, ProbeEvent::LibraryOpened) => true,
                (ProbeAction::OpenLibrary, ProbeEvent::OpenFailed { .. }) => true,
                (ProbeAction::QueryVersion, ProbeEvent::VersionMissing) => true,
                (ProbeAction::QueryVersion, ProbeEvent::VersionReported { .. }) => true,
                (ProbeAction::InitProvider, ProbeEvent::ProviderInitialized) => true,
                (ProbeAction::InitProvider, ProbeEvent::InitFailed { .. }) => true,
                (ProbeAction::DiscardLibrary, ProbeEvent::LibraryDiscarded) => true,
                _ => false,
            },
        }
    }

    /// Takes in the outcome of the last action. A library that cannot be
    /// opened, or a plugin without its init function, ends the loading with
    /// the linker's error; every other outcome moves the candidate on.
    pub fn advance(self, event: ProbeEvent) -> (outcome: Result<CandidateState, LoadError>)
        requires
            accepts(self, event),
        ensures
            aborts(event) ==> outcome == Err::<CandidateState, LoadError>(abort_error(event)),
            !aborts(event) ==> outcome == Ok::<CandidateState, LoadError>(
                next_state(self, event),
            ),
    {
        match event {
            ProbeEvent::LibraryOpened => Ok(CandidateState::Opened),
            ProbeEvent::OpenFailed { source } => Err(LoadError::LibloadingError { source }),
            ProbeEvent::VersionMissing => Ok(CandidateState::VersionChecked { version: None }),
            ProbeEvent::VersionReported { version } => Ok(
                CandidateState::VersionChecked { version: Some(version) },
            ),
            ProbeEvent::ProviderInitialized => Ok(CandidateState::Initialized),
            ProbeEvent::InitFailed { source } => Err(LoadError::LibloadingError { source }),
            ProbeEvent::LibraryDiscarded => match self {
                CandidateState::VersionChecked { version } => match version {
                    None => Ok(CandidateState::Skipped { reason: SkipReason::NotAPlugin }),
                    Some(version) => Ok(
                        CandidateState::Skipped {
                            reason: SkipReason::UnsupportedVersion { version },
                        },
                    ),
                },
                _ => Ok(self),
            },
        }
    }
}

/// The event that reports the outcome `version` of a version check.
pub open spec fn version_event(version: Option<i32>) -> ProbeEvent {
    match version {
        None => ProbeEvent::VersionMissing,
        Some(version) => ProbeEvent::VersionReported { version },
    }
}

/// There is one way to each state: a candidate that was discovered is opened,
/// then asked for its version, then either initialized, if it reported the
/// supported version, or skipped.
pub proof fn lemma_run_from_discovered(events: Seq<ProbeEvent>)
    ensures
        match run(CandidateState::Discovered, events) {
            None => true,
            Some(CandidateState::Discovered) => events.len() == 0,
            Some(CandidateState::Opened) => events == seq![ProbeEvent::LibraryOpened],
            Some(CandidateState::VersionChecked { version }) => events == seq![
                ProbeEvent::LibraryOpened,
                version_event(version),
            ],
            Some(CandidateState::Initialized) => events == seq![
                ProbeEvent::LibraryOpened,
                ProbeEvent::VersionReported { version: PROVIDER_VERSION },
                ProbeEvent::ProviderInitialized,
            ],
            Some(CandidateState::Skipped { reason }) => exists|version: Option<i32>|
                !supported(version) && reason == skip_reason(version) && events == seq![
                    ProbeEvent::LibraryOpened,
                    #[trigger] version_event(version),
                    ProbeEvent::LibraryDiscarded,
                ],
        },
    decreases events.len(),
{
    if events.len() > 0 {
        let earlier = events.drop_last();
        let last = events.last();
        lemma_run_from_discovered(earlier);
        assert(events =~= earlier.push(last));
        match run(CandidateState::Discovered, earlier) {
            None => {},
            Some(reached) => {
                if accepts(reached, last) && !aborts(last) {
                    match reached {
                        CandidateState::Discovered => {
                            assert(earlier =~= Seq::<ProbeEvent>::empty());
                            assert(events =~= seq![ProbeEvent::LibraryOpened]);
                        },
                        CandidateState::Opened => {
                            match last {
                                ProbeEvent::VersionMissing => {
                                    assert(last == version_event(None));
                                },
                                ProbeEvent::VersionReported { version } => {
                                    assert(last == version_event(Some(version)));
                                },
                                _ => {},
                            }
                            let version = next_state(reached, last)->VersionChecked_version;
                            assert(events =~= seq![
                                ProbeEvent::LibraryOpened,
                                version_event(version),
                            ]);
                        },
                        CandidateState::VersionChecked { version } => {
                            if supported(version) {
                                assert(version_event(version) == ProbeEvent::VersionReported {
                                    version: PROVIDER_VERSION,
                                });
                                assert(events =~= seq![
                                    ProbeEvent::LibraryOpened,
                                    ProbeEvent::VersionReported { version: PROVIDER_VERSION },
                                    ProbeEvent::ProviderInitialized,
                                ]);
                            } else {
                                assert(events =~= seq![
                                    ProbeEvent::LibraryOpened,
                                    version_event(version),
                                    ProbeEvent::LibraryDiscarded,
                                ]);
                            }
                        },
                        _ => {},
                    }
                }
            },
        }
    }
}

/// Version gating: a plugin is initialized only after it has reported the
/// supported version. Whatever else it reports, it ends up skipped, never
/// initialized.
pub proof fn lemma_version_gating(events: Seq<ProbeEvent>, i: int, version: i32)
    requires
        0 <= i < events.len(),
        events[i] == (ProbeEvent::VersionReported { version }),
        version != PROVIDER_VERSION,
    ensures
        run(CandidateState::Discovered, events) != Some(CandidateState::Initialized),
{
    lemma_run_from_discovered(events);
}

/// A file that may hold a plugin, on its way through the steps.
///
/// A candidate starts as discovered and moves only by the outcomes that its
/// driver reports, so where it stands is always where those outcomes lead.
pub struct Candidate {
    path: String,
    state: CandidateState,
    history: Ghost<Seq<ProbeEvent>>,
}

impl Candidate {
    #[verifier::type_invariant]
    spec fn state_follows_history(&self) -> bool {
        run(CandidateState::Discovered, self.history@) == Some(self.state)
    }

    /// The file.
    pub closed spec fn path(&self) -> Seq<char> {
        self.path@
    }

    /// How far the candidate has come.
    pub closed spec fn state(&self) -> CandidateState {
        self.state
    }

    /// The outcomes that were reported for the candidate, oldest first.
    pub closed spec fn history(&self) -> Seq<ProbeEvent> {
        self.history@
    }

    /// A candidate as it is found in a scanned directory.
    pub fn discovered(path: String) -> (candidate: Candidate)
        ensures
            candidate.path() == path@,
            candidate.state() == CandidateState::Discovered,
            candidate.history() == Seq::<ProbeEvent>::empty(),
    {
        Candidate { path, state: CandidateState::Discovered, history: Ghost(Seq::empty()) }
    }

    /// The file.
    pub fn location(&self) -> (path: &str)
        ensures
            path@ == self.path(),
    {
        self.path.as_str()
    }

    /// Gives up the candidate for the name of its file.
    pub fn into_path(self) -> (path: String)
        ensures
            path@ == self.path(),
    {
        self.path
    }

    /// How far the candidate has come. Where it stands is where the
    /// reported outcomes lead from its discovery.
    pub fn current(&self) -> (state: CandidateState)
        ensures
            state == self.state(),
            run(CandidateState::Discovered, self.history()) == Some(state),
    {
        proof {
            use_type_invariant(self);
        }
        self.state
    }

    /// Whether the candidate's provider exists. It exists only for a plugin
    /// that was opened, reported the supported version and was then
    /// initialized.
    pub fn is_initialized(&self) -> (initialized: bool)
        ensures
            initialized == (self.state() is Initialized),
            initialized ==> self.history() == seq![
                ProbeEvent::LibraryOpened,
                ProbeEvent::VersionReported { version: PROVIDER_VERSION },
                ProbeEvent::ProviderInitialized,
            ],
    {
        proof {
            use_type_invariant(self);
            lemma_run_from_discovered(self.history@);
        }
        match self.state {
            CandidateState::Initialized => true,
            _ => false,
        }
    }

    /// The action that the driver takes next, if any is left.
    pub fn next_action(&self) -> (action: Option<ProbeAction>)
        ensures
            action == action_of(self.state()),
    {
        self.state.next_action()
    }

    /// Whether `event` reports the outcome of the action that the candidate
    /// asked for.
    pub fn accepts(&self, event: &ProbeEvent) -> (accepted: bool)
        ensures
            accepted == accepts(self.state(), *event),
    {
        self.state.accepts(event)
    }

    /// Takes in the outcome of the last action. An outcome that aborts the
    /// loading ends the candidate with the error; every other outcome moves
    /// it on.
    pub fn advance(self, event: ProbeEvent) -> (outcome: Result<Candidate, LoadError>)
        requires
            accepts(self.state(), event),
        ensures
            aborts(event) ==> outcome == Err::<Candidate, LoadError>(abort_error(event)),
            !aborts(event) ==> outcome is Ok && outcome->Ok_0.path() == self.path()
                && outcome->Ok_0.state() == next_state(self.state(), event)
                && outcome->Ok_0.history() == self.history().push(event),
    {
        proof {
            use_type_invariant(&self);
        }
        let Candidate { path, state, history } = self;
        let ghost reported = history@.push(event);
        proof {
            assert(reported.drop_last() =~= history@);
        }
        match state.advance(event) {
            Ok(state) => Ok(Candidate { path, state, history: Ghost(reported) }),
            Err(error) => Err(error),
        }
    }
}

/// What the driver found when it looked at a directory or at one of its
/// entries.
#[derive(Debug)]
pub enum ScanEvent {
    /// The directory does not exist, or the path is not a directory.
    DirectoryAbsent,
    /// The directory cannot be listed.
    DirectoryUnreadable { source: std::io::Error },
    /// An entry of the directory cannot be read.
    EntryUnreadable { source: std::io::Error },
    /// An entry of the directory.
    Entry { path: String, is_file: bool },
}

/// What the driver does with what it found.
#[derive(Clone, Copy, Debug, PartialEq, Eq)]
pub enum ScanStep {
    /// Go on with the next directory.
    SkipDirectory,
    /// Go on with the next entry.
    SkipEntry,
    /// Take the entry as a candidate and probe it.
    Probe,
}

/// What follows from what the driver found, where the loading goes on.
pub open spec fn scan_step_of(event: ScanEvent, platform: Platform) -> ScanStep {
    match event {
        ScanEvent::Entry { path, is_file } => if is_file && names_dylib(path@, platform) {
            ScanStep::Probe
        } else {
            ScanStep::SkipEntry
        },
        _ => ScanStep::SkipDirectory,
    }
}

/// Decides what follows from what the driver found. A directory that is not
/// there is passed over without error. A directory or an entry that cannot
/// be read ends the loading with the error of the file system. An entry is
/// probed if it is a regular file named like a shared library.
pub fn scan_step(event: ScanEvent, platform: Platform) -> (step: Result<ScanStep, LoadError>)
    ensures
        match event {
            ScanEvent::DirectoryUnreadable { source } => step == Err::<ScanStep, LoadError>(
                LoadError::IoError { source },
            ),
            ScanEvent::EntryUnreadable { source } => step == Err::<ScanStep, LoadError>(
                LoadError::IoError { source },
            ),
            _ => step == Ok::<ScanStep, LoadError>(scan_step_of(event, platform)),
        },
{
    match event {
        ScanEvent::DirectoryAbsent => Ok(ScanStep::SkipDirectory),
        ScanEvent::DirectoryUnreadable { source } => Err(LoadError::IoError { source }),
        ScanEvent::EntryUnreadable { source } => Err(LoadError::IoError { source }),
        ScanEvent::Entry { path, is_file } => if is_candidate(is_file, path.as_str(), platform) {
            Ok(ScanStep::Probe)
        } else {
            Ok(ScanStep::SkipEntry)
        },
    }
}

} // verus!
