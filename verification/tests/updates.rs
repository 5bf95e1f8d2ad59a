use verditum::update::{step, UpdateAction, UpdateEvent, UpdateState};

#[test]
fn asks_before_installing_and_restarts_after() {
    let (state, action) = step(UpdateState::Checking, UpdateEvent::Checked(Some("1.2.0".into())));
    assert_eq!(state, UpdateState::Asking);
    match action {
        UpdateAction::Ask { version, title, message, install, later } => {
            assert_eq!(version, "1.2.0");
            assert_eq!(title, "Güncelleme");
            assert_eq!(
                message,
                "Verditum 1.2.0 sürümü yayımlandı. Şimdi yüklensin mi? Uygulama, yükleme bitince yeniden başlatılacak."
            );
            assert_eq!((install.as_str(), later.as_str()), ("Yükle", "Sonra"));
        },
        other => panic!("unexpected {other:?}"),
    }
    let (state, action) = step(state, UpdateEvent::Answered(true));
    assert_eq!(state, UpdateState::Installing);
    assert!(matches!(action, UpdateAction::Install));
    let (state, action) = step(state, UpdateEvent::Installed(Ok(())));
    assert_eq!(state, UpdateState::Done);
    assert!(matches!(action, UpdateAction::Restart));
}

#[test]
fn declining_installs_nothing() {
    let (state, _) = step(UpdateState::Checking, UpdateEvent::Checked(Some("2.0.0".into())));
    let (state, action) = step(state, UpdateEvent::Answered(false));
    assert_eq!(state, UpdateState::Done);
    assert!(matches!(action, UpdateAction::Stop));
    // Nothing that arrives afterwards starts an installation.
    let (state, action) = step(state, UpdateEvent::Answered(true));
    assert_eq!(state, UpdateState::Done);
    assert!(matches!(action, UpdateAction::Stop));
}

#[test]
fn no_update_and_failed_checks_end_quietly_or_with_a_warning() {
    let (state, action) = step(UpdateState::Checking, UpdateEvent::Checked(None));
    assert_eq!(state, UpdateState::Done);
    assert!(matches!(action, UpdateAction::Stop));
    let (state, action) = step(UpdateState::Checking, UpdateEvent::CheckFailed("offline".into()));
    assert_eq!(state, UpdateState::Done);
    assert!(matches!(action, UpdateAction::Warn(w) if w == "offline"));
}

#[test]
fn a_failed_installation_is_reported() {
    let (state, action) = step(UpdateState::Installing, UpdateEvent::Installed(Err("disk full".into())));
    assert_eq!(state, UpdateState::Done);
    match action {
        UpdateAction::ReportFailure { title, message, error } => {
            assert_eq!(title, "Güncelleme");
            assert_eq!(message, "Güncelleme yüklenemedi. Uygulama bir sonraki açılışta yeniden deneyecek.");
            assert_eq!(error, "disk full");
        },
        other => panic!("unexpected {other:?}"),
    }
}

#[test]
fn consent_outside_a_prompt_installs_nothing() {
    for state in [UpdateState::Checking, UpdateState::Installing, UpdateState::Done] {
        let (_, action) = step(state, UpdateEvent::Answered(true));
        assert!(!matches!(action, UpdateAction::Install));
    }
}
