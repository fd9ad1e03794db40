use encrypted_notes_backend::auth::AuthError;
use encrypted_notes_backend::notes::EncryptedNote;
use encrypted_notes_backend::principal::Principal;
use encrypted_notes_backend::service::{RegistrationMode, Service};

fn principal(bytes: &[u8]) -> Principal {
    Principal::from_bytes(bytes.to_vec())
}

#[test]
fn register_then_list_aliases() {
    let mut s = Service::new(RegistrationMode::Strict);
    let p = principal(&[1, 2, 3]);
    s.register_device(&p, "laptop".to_string(), "K1".to_string())
        .unwrap();
    let aliases = s.get_device_aliases(&p).unwrap();
    assert_eq!(aliases, vec!["laptop".to_string()]);
}

#[test]
fn register_is_upsert_not_duplicate() {
    let mut s = Service::new(RegistrationMode::Strict);
    let p = principal(&[1]);
    s.register_device(&p, "laptop".to_string(), "K1".to_string())
        .unwrap();
    s.register_device(&p, "laptop".to_string(), "K2".to_string())
        .unwrap();
    let aliases = s.get_device_aliases(&p).unwrap();
    assert_eq!(aliases, vec!["laptop".to_string()]);
}

#[test]
fn aliases_keep_registration_order() {
    let mut s = Service::new(RegistrationMode::Strict);
    let p = principal(&[1]);
    s.register_device(&p, "laptop".to_string(), "K1".to_string())
        .unwrap();
    s.register_device(&p, "phone".to_string(), "K2".to_string())
        .unwrap();
    let aliases = s.get_device_aliases(&p).unwrap();
    assert_eq!(aliases, vec!["laptop".to_string(), "phone".to_string()]);
}

#[test]
fn add_two_notes_distinct_ids_in_order() {
    let mut s = Service::new(RegistrationMode::Open);
    let p = principal(&[7]);
    s.add_note(&p, "cipherA".to_string()).unwrap();
    s.add_note(&p, "cipherB".to_string()).unwrap();
    let notes = s.get_notes(&p).unwrap();
    assert_eq!(notes.len(), 2);
    assert_ne!(notes[0].id, notes[1].id);
    assert_eq!(notes[0].data, "cipherA".to_string());
    assert_eq!(notes[1].data, "cipherB".to_string());
}

#[test]
fn add_notes_in_strict_mode_after_registration() {
    let mut s = Service::new(RegistrationMode::Strict);
    let p = principal(&[7]);
    s.register_device(&p, "laptop".to_string(), "K1".to_string())
        .unwrap();
    s.add_note(&p, "cipherA".to_string()).unwrap();
    s.add_note(&p, "cipherB".to_string()).unwrap();
    let notes = s.get_notes(&p).unwrap();
    assert_eq!(notes.len(), 2);
    assert_ne!(notes[0].id, notes[1].id);
    assert_eq!(notes[0].data, "cipherA".to_string());
    assert_eq!(notes[1].data, "cipherB".to_string());
}

#[test]
fn update_keeps_id_and_replaces_data() {
    let mut s = Service::new(RegistrationMode::Open);
    let p = principal(&[9]);
    s.add_note(&p, "x".to_string()).unwrap();
    let id = s.get_notes(&p).unwrap()[0].id;
    s.update_note(
        &p,
        EncryptedNote {
            id,
            data: "y".to_string(),
        },
    )
    .unwrap();
    let notes = s.get_notes(&p).unwrap();
    assert_eq!(notes.len(), 1);
    assert_eq!(notes[0].id, id);
    assert_eq!(notes[0].data, "y".to_string());
}

#[test]
fn update_absent_id_is_silent_no_op() {
    let mut s = Service::new(RegistrationMode::Open);
    let p = principal(&[9]);
    s.add_note(&p, "x".to_string()).unwrap();
    let id = s.get_notes(&p).unwrap()[0].id;
    s.update_note(
        &p,
        EncryptedNote {
            id: id.wrapping_add(100),
            data: "y".to_string(),
        },
    )
    .unwrap();
    let notes = s.get_notes(&p).unwrap();
    assert_eq!(notes.len(), 1);
    assert_eq!(notes[0].id, id);
    assert_eq!(notes[0].data, "x".to_string());
}

#[test]
fn delete_never_issued_id_succeeds_unchanged() {
    let mut s = Service::new(RegistrationMode::Open);
    let p = principal(&[2]);
    s.add_note(&p, "keep".to_string()).unwrap();
    s.delete_note(&p, 999).unwrap();
    let notes = s.get_notes(&p).unwrap();
    assert_eq!(notes.len(), 1);
    assert_eq!(notes[0].data, "keep".to_string());
}

#[test]
fn delete_note_twice_same_final_state() {
    let mut s = Service::new(RegistrationMode::Open);
    let p = principal(&[2]);
    s.add_note(&p, "a".to_string()).unwrap();
    s.add_note(&p, "b".to_string()).unwrap();
    let id = s.get_notes(&p).unwrap()[0].id;
    s.delete_note(&p, id).unwrap();
    let once: Vec<(u128, String)> = s
        .get_notes(&p)
        .unwrap()
        .into_iter()
        .map(|n| (n.id, n.data))
        .collect();
    s.delete_note(&p, id).unwrap();
    let twice: Vec<(u128, String)> = s
        .get_notes(&p)
        .unwrap()
        .into_iter()
        .map(|n| (n.id, n.data))
        .collect();
    assert_eq!(once, twice);
    assert_eq!(once.len(), 1);
    assert_eq!(once[0].1, "b".to_string());
}

#[test]
fn deleted_id_is_never_reused() {
    let mut s = Service::new(RegistrationMode::Open);
    let p = principal(&[2]);
    s.add_note(&p, "a".to_string()).unwrap();
    let id_a = s.get_notes(&p).unwrap()[0].id;
    s.delete_note(&p, id_a).unwrap();
    s.add_note(&p, "b".to_string()).unwrap();
    let notes = s.get_notes(&p).unwrap();
    assert_eq!(notes.len(), 1);
    assert_ne!(notes[0].id, id_a);
}

#[test]
fn delete_device_then_gone_and_idempotent() {
    let mut s = Service::new(RegistrationMode::Strict);
    let p = principal(&[5]);
    s.register_device(&p, "laptop".to_string(), "K1".to_string())
        .unwrap();
    s.register_device(&p, "phone".to_string(), "K2".to_string())
        .unwrap();
    s.delete_device(&p, &"laptop".to_string()).unwrap();
    assert_eq!(
        s.get_device_aliases(&p).unwrap(),
        vec!["phone".to_string()]
    );
    s.delete_device(&p, &"laptop".to_string()).unwrap();
    assert_eq!(
        s.get_device_aliases(&p).unwrap(),
        vec!["phone".to_string()]
    );
}

#[test]
fn anonymous_add_note_rejected_unchanged() {
    let mut s = Service::new(RegistrationMode::Open);
    let anon = Principal::anonymous();
    let p = principal(&[1]);
    s.add_note(&p, "mine".to_string()).unwrap();
    assert_eq!(
        s.add_note(&anon, "evil".to_string()),
        Err(AuthError::Anonymous)
    );
    assert_eq!(s.get_notes(&p).unwrap().len(), 1);
}

#[test]
fn anonymous_register_device_rejected() {
    let mut s = Service::new(RegistrationMode::Strict);
    let anon = Principal::anonymous();
    assert_eq!(
        s.register_device(&anon, "laptop".to_string(), "K1".to_string()),
        Err(AuthError::Anonymous)
    );
    assert!(!s.is_caller_registered(&anon));
}

#[test]
fn anonymous_queries_rejected() {
    let s = Service::new(RegistrationMode::Open);
    let anon = Principal::anonymous();
    assert_eq!(s.get_notes(&anon).unwrap_err(), AuthError::Anonymous);
    assert_eq!(
        s.get_device_aliases(&anon).unwrap_err(),
        AuthError::Anonymous
    );
}

#[test]
fn anonymous_bytes_are_recognised() {
    let anon = Principal::from_bytes(vec![4]);
    assert!(anon.is_anonymous());
    let not_anon = Principal::from_bytes(vec![4, 4]);
    assert!(!not_anon.is_anonymous());
}

#[test]
fn strict_mode_requires_registration_for_notes() {
    let mut s = Service::new(RegistrationMode::Strict);
    let p = principal(&[8]);
    assert_eq!(
        s.add_note(&p, "note".to_string()),
        Err(AuthError::NotRegistered)
    );
    assert_eq!(s.get_notes(&p).unwrap_err(), AuthError::NotRegistered);
    s.register_device(&p, "laptop".to_string(), "K1".to_string())
        .unwrap();
    assert!(s.is_caller_registered(&p));
    s.add_note(&p, "note".to_string()).unwrap();
    assert_eq!(s.get_notes(&p).unwrap().len(), 1);
}

#[test]
fn open_mode_needs_no_registration_for_notes() {
    let mut s = Service::new(RegistrationMode::Open);
    let p = principal(&[8]);
    assert!(!s.is_caller_registered(&p));
    s.add_note(&p, "note".to_string()).unwrap();
    assert_eq!(s.get_notes(&p).unwrap().len(), 1);
}

#[test]
fn device_queries_need_registration_in_any_mode() {
    let mut s = Service::new(RegistrationMode::Open);
    let p = principal(&[8]);
    assert_eq!(
        s.get_device_aliases(&p).unwrap_err(),
        AuthError::NotRegistered
    );
    assert_eq!(
        s.delete_device(&p, &"laptop".to_string()).unwrap_err(),
        AuthError::NotRegistered
    );
}

#[test]
fn tenants_are_isolated() {
    let mut s = Service::new(RegistrationMode::Open);
    let a = principal(&[10]);
    let b = principal(&[11]);
    s.add_note(&a, "secret of a".to_string()).unwrap();
    s.register_device(&a, "laptop".to_string(), "K1".to_string())
        .unwrap();
    assert_eq!(s.get_notes(&b).unwrap().len(), 0);
    assert!(!s.is_caller_registered(&b));
    s.add_note(&b, "b's own".to_string()).unwrap();
    let b_notes = s.get_notes(&b).unwrap();
    assert_eq!(b_notes.len(), 1);
    assert_eq!(b_notes[0].data, "b's own".to_string());
    let a_notes = s.get_notes(&a).unwrap();
    assert_eq!(a_notes.len(), 1);
    assert_eq!(a_notes[0].data, "secret of a".to_string());
}

#[test]
fn delete_as_one_tenant_leaves_another_alone() {
    let mut s = Service::new(RegistrationMode::Open);
    let a = principal(&[10]);
    let b = principal(&[11]);
    s.add_note(&a, "a note".to_string()).unwrap();
    s.add_note(&b, "b note".to_string()).unwrap();
    let a_id = s.get_notes(&a).unwrap()[0].id;
    s.delete_note(&b, a_id).unwrap();
    assert_eq!(s.get_notes(&a).unwrap().len(), 1);
    assert_eq!(s.get_notes(&b).unwrap().len(), 0);
}

#[test]
fn principals_compare_by_bytes() {
    let a = principal(&[1, 2]);
    let b = principal(&[1, 2]);
    let c = principal(&[2, 1]);
    assert!(a.same_as(&b));
    assert!(!a.same_as(&c));
    let d = a.clone();
    assert!(d.same_as(&a));
}

#[test]
fn same_key_under_two_aliases_is_allowed() {
    let mut s = Service::new(RegistrationMode::Strict);
    let p = principal(&[3]);
    s.register_device(&p, "laptop".to_string(), "K1".to_string())
        .unwrap();
    s.register_device(&p, "phone".to_string(), "K1".to_string())
        .unwrap();
    let aliases = s.get_device_aliases(&p).unwrap();
    assert_eq!(aliases, vec!["laptop".to_string(), "phone".to_string()]);
}

#[test]
fn registered_caller_with_no_notes_sees_empty_list() {
    let mut s = Service::new(RegistrationMode::Strict);
    let p = principal(&[6]);
    s.register_device(&p, "laptop".to_string(), "K1".to_string())
        .unwrap();
    assert_eq!(s.get_notes(&p).unwrap().len(), 0);
}
