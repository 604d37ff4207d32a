use patronus::discovery::Platform;
use patronus::loader::{
    scan_step, Candidate, CandidateState, ProbeAction, ProbeEvent, ScanEvent, ScanStep, SkipReason,
};
use patronus::provider::{PROVIDER_INIT_FUNCTION, PROVIDER_VERSION, PROVIDER_VERSION_FUNCTION};
use patronus::sample::SampleProvider;
use patronus::{Loader, LoadError};

fn this_program() -> libloading::Library {
    libloading::os::unix::Library::this().into()
}

/// Drives a candidate through the events until one is not accepted or the
/// loading is aborted.
fn drive(events: Vec<ProbeEvent>) -> Result<CandidateState, LoadError> {
    let mut state = CandidateState::Discovered;
    for event in events {
        assert!(state.accepts(&event));
        state = state.advance(event)?;
    }
    Ok(state)
}

#[test]
fn symbols_and_version_of_the_contract() {
    assert_eq!(PROVIDER_VERSION, 1);
    assert_eq!(PROVIDER_VERSION_FUNCTION, "patronus_provider_version");
    assert_eq!(PROVIDER_INIT_FUNCTION, "patronus_provider_init");
}

#[test]
fn each_state_asks_for_its_action() {
    assert_eq!(CandidateState::Discovered.next_action(), Some(ProbeAction::OpenLibrary));
    assert_eq!(CandidateState::Opened.next_action(), Some(ProbeAction::QueryVersion));
    assert_eq!(
        CandidateState::VersionChecked { version: Some(1) }.next_action(),
        Some(ProbeAction::InitProvider)
    );
    assert_eq!(
        CandidateState::VersionChecked { version: Some(2) }.next_action(),
        Some(ProbeAction::DiscardLibrary)
    );
    assert_eq!(
        CandidateState::VersionChecked { version: Some(0) }.next_action(),
        Some(ProbeAction::DiscardLibrary)
    );
    assert_eq!(
        CandidateState::VersionChecked { version: None }.next_action(),
        Some(ProbeAction::DiscardLibrary)
    );
    assert_eq!(CandidateState::Initialized.next_action(), None);
    assert_eq!(
        CandidateState::Skipped { reason: SkipReason::NotAPlugin }.next_action(),
        None
    );
}

#[test]
fn terminal_states_are_skipped_and_initialized() {
    assert!(!CandidateState::Discovered.is_terminal());
    assert!(!CandidateState::Opened.is_terminal());
    assert!(!CandidateState::VersionChecked { version: Some(1) }.is_terminal());
    assert!(CandidateState::Initialized.is_terminal());
    assert!(CandidateState::Skipped { reason: SkipReason::NotAPlugin }.is_terminal());
    assert!(CandidateState::Skipped { reason: SkipReason::UnsupportedVersion { version: 2 } }
        .is_terminal());
}

#[test]
fn plugin_with_supported_version_is_initialized() {
    let state = drive(vec![
        ProbeEvent::LibraryOpened,
        ProbeEvent::VersionReported { version: 1 },
        ProbeEvent::ProviderInitialized,
    ]);
    assert_eq!(state.unwrap(), CandidateState::Initialized);
}

#[test]
fn plugin_with_another_version_is_never_initialized() {
    for version in [2, 0, -1, i32::MAX, i32::MIN] {
        let checked = drive(vec![
            ProbeEvent::LibraryOpened,
            ProbeEvent::VersionReported { version },
        ])
        .unwrap();
        assert_eq!(checked, CandidateState::VersionChecked { version: Some(version) });
        assert!(!checked.accepts(&ProbeEvent::ProviderInitialized));
        assert_eq!(checked.next_action(), Some(ProbeAction::DiscardLibrary));
        let skipped = checked.advance(ProbeEvent::LibraryDiscarded).unwrap();
        assert_eq!(
            skipped,
            CandidateState::Skipped { reason: SkipReason::UnsupportedVersion { version } }
        );
        assert!(!skipped.accepts(&ProbeEvent::ProviderInitialized));
    }
}

#[test]
fn library_without_version_function_is_skipped_in_silence() {
    let state = drive(vec![
        ProbeEvent::LibraryOpened,
        ProbeEvent::VersionMissing,
        ProbeEvent::LibraryDiscarded,
    ]);
    assert_eq!(state.unwrap(), CandidateState::Skipped { reason: SkipReason::NotAPlugin });
}

#[test]
fn library_that_cannot_be_opened_ends_the_loading() {
    let outcome = drive(vec![ProbeEvent::OpenFailed { source: libloading::Error::DlOpenUnknown }]);
    match outcome {
        Err(LoadError::LibloadingError { source: libloading::Error::DlOpenUnknown }) => {}
        other => panic!("unexpected outcome {:?}", other),
    }
}

#[test]
fn plugin_without_init_function_ends_the_loading() {
    let outcome = drive(vec![
        ProbeEvent::LibraryOpened,
        ProbeEvent::VersionReported { version: 1 },
        ProbeEvent::InitFailed { source: libloading::Error::DlSymUnknown },
    ]);
    match outcome {
        Err(LoadError::LibloadingError { source: libloading::Error::DlSymUnknown }) => {}
        other => panic!("unexpected outcome {:?}", other),
    }
}

#[test]
fn events_out_of_turn_are_not_accepted() {
    let discovered = CandidateState::Discovered;
    assert!(discovered.accepts(&ProbeEvent::LibraryOpened));
    assert!(!discovered.accepts(&ProbeEvent::VersionMissing));
    assert!(!discovered.accepts(&ProbeEvent::ProviderInitialized));
    assert!(!discovered.accepts(&ProbeEvent::LibraryDiscarded));
    let opened = CandidateState::Opened;
    assert!(!opened.accepts(&ProbeEvent::LibraryOpened));
    assert!(!opened.accepts(&ProbeEvent::ProviderInitialized));
    assert!(!opened.accepts(&ProbeEvent::LibraryDiscarded));
    let supported = CandidateState::VersionChecked { version: Some(1) };
    assert!(supported.accepts(&ProbeEvent::ProviderInitialized));
    assert!(!supported.accepts(&ProbeEvent::LibraryDiscarded));
    assert!(!CandidateState::Initialized.accepts(&ProbeEvent::LibraryOpened));
    assert!(!CandidateState::Initialized.accepts(&ProbeEvent::LibraryDiscarded));
}

#[test]
fn absent_directory_is_passed_over_without_error() {
    match scan_step(ScanEvent::DirectoryAbsent, Platform::Other) {
        Ok(ScanStep::SkipDirectory) => {}
        other => panic!("unexpected step {:?}", other),
    }
}

#[test]
fn unreadable_directory_or_entry_ends_the_loading() {
    let denied = std::io::Error::new(std::io::ErrorKind::PermissionDenied, "denied");
    match scan_step(ScanEvent::DirectoryUnreadable { source: denied }, Platform::Other) {
        Err(LoadError::IoError { source }) => {
            assert_eq!(source.kind(), std::io::ErrorKind::PermissionDenied)
        }
        other => panic!("unexpected step {:?}", other),
    }
    let broken = std::io::Error::new(std::io::ErrorKind::Other, "broken");
    match scan_step(ScanEvent::EntryUnreadable { source: broken }, Platform::Other) {
        Err(LoadError::IoError { source }) => assert_eq!(source.kind(), std::io::ErrorKind::Other),
        other => panic!("unexpected step {:?}", other),
    }
}

#[test]
fn entries_are_probed_if_they_are_files_named_like_shared_libraries() {
    let entry = |path: &str, is_file: bool| ScanEvent::Entry { path: String::from(path), is_file };
    assert_eq!(scan_step(entry("/p/a.so", true), Platform::Other).unwrap(), ScanStep::Probe);
    assert_eq!(scan_step(entry("/p/a.so", false), Platform::Other).unwrap(), ScanStep::SkipEntry);
    assert_eq!(scan_step(entry("/p/a.txt", true), Platform::Other).unwrap(), ScanStep::SkipEntry);
    assert_eq!(scan_step(entry("/p/a.so", true), Platform::Windows).unwrap(), ScanStep::SkipEntry);
    assert_eq!(scan_step(entry("/p/a.dll", true), Platform::Windows).unwrap(), ScanStep::Probe);
}

/// Takes a candidate through the events, each of which must be accepted.
fn candidate(path: &str, events: Vec<ProbeEvent>) -> Candidate {
    let mut candidate = Candidate::discovered(String::from(path));
    for event in events {
        assert!(candidate.accepts(&event));
        candidate = candidate.advance(event).unwrap();
    }
    candidate
}

fn plugin(path: &str, version: i32) -> Candidate {
    let mut events = vec![ProbeEvent::LibraryOpened, ProbeEvent::VersionReported { version }];
    events.push(if version == 1 {
        ProbeEvent::ProviderInitialized
    } else {
        ProbeEvent::LibraryDiscarded
    });
    candidate(path, events)
}

#[test]
fn candidate_starts_as_discovered_and_keeps_its_path() {
    let found = Candidate::discovered(String::from("/p/libsample.so"));
    assert_eq!(found.location(), "/p/libsample.so");
    assert_eq!(found.current(), CandidateState::Discovered);
    assert_eq!(found.next_action(), Some(ProbeAction::OpenLibrary));
    assert!(!found.is_initialized());
    let opened = found.advance(ProbeEvent::LibraryOpened).unwrap();
    assert_eq!(opened.location(), "/p/libsample.so");
    assert_eq!(opened.current(), CandidateState::Opened);
    assert_eq!(opened.into_path(), "/p/libsample.so");
}

#[test]
fn candidate_is_initialized_only_with_the_supported_version() {
    assert!(plugin("/p/new.so", 1).is_initialized());
    for version in [0, 2, -1, 100] {
        let old = plugin("/p/old.so", version);
        assert!(!old.is_initialized());
        assert_eq!(
            old.current(),
            CandidateState::Skipped { reason: SkipReason::UnsupportedVersion { version } }
        );
        assert_eq!(old.next_action(), None);
    }
}

#[test]
fn candidate_that_cannot_be_opened_ends_with_the_error() {
    let found = Candidate::discovered(String::from("/p/broken.so"));
    match found.advance(ProbeEvent::OpenFailed { source: libloading::Error::DlOpenUnknown }) {
        Err(LoadError::LibloadingError { source: libloading::Error::DlOpenUnknown }) => {}
        _ => panic!("the loading should have been aborted"),
    }
}

#[test]
fn loader_keeps_providers_in_order_and_reports_rejections() {
    let mut loader: Loader<SampleProvider> = Loader::new();
    assert!(loader.providers.is_empty());
    assert!(loader.rejected.is_empty());
    loader.register(plugin("/p/first.so", 1), SampleProvider {}, this_program());
    loader.pass_over(plugin("/p/old.so", 2));
    loader.pass_over(candidate(
        "/p/libc.so",
        vec![ProbeEvent::LibraryOpened, ProbeEvent::VersionMissing, ProbeEvent::LibraryDiscarded],
    ));
    loader.register(plugin("/p/second.so", 1), SampleProvider {}, this_program());
    let (patronus, rejected) = loader.finish();
    assert_eq!(patronus.providers.len(), 2);
    assert_eq!(rejected.len(), 1);
    match &rejected[0] {
        LoadError::UnsupportedVersion { path, version } => {
            assert_eq!(path, "/p/old.so");
            assert_eq!(*version, 2);
        }
        other => panic!("unexpected report {:?}", other),
    }
}
