use ockam_identity_core::change::{Change, ChangeHistory};
use ockam_identity_core::creation::IdentitiesCreation;
use ockam_identity_core::error::IdentityError;
use ockam_identity_core::history::{compute_change_hash, verify_change_history};
use ockam_identity_core::identifier::Identifier;
use ockam_identity_core::identity::Identity;
use ockam_identity_core::keys::{authorized_key_id, create_initial_key, get_secret_key, rotate_key};
use ockam_identity_core::repository::IdentitiesRepository;
use ockam_vault::{Hasher, KeyIdVault, SecretVault, SoftwareVault};

fn new_creation() -> IdentitiesCreation {
    IdentitiesCreation::new(IdentitiesRepository::new(), SoftwareVault::default())
}

#[test]
fn test_identity_creation() -> Result<(), IdentityError> {
    let mut creation = new_creation();

    let identity = creation.create_identity()?;
    let actual = creation.repository.get_identity(identity.identifier())?;

    let actual =
        Identity::import_from_change_history(Some(identity.identifier()), actual, &mut creation.vault)?;
    assert_eq!(
        actual, identity,
        "the identity can be retrieved from the repository"
    );

    let actual = creation.repository.retrieve_identity(identity.identifier());
    assert!(actual.is_some());
    let actual = Identity::import_from_change_history(
        Some(identity.identifier()),
        actual.unwrap(),
        &mut creation.vault,
    )?;
    assert_eq!(
        actual, identity,
        "the identity can be retrieved from the repository as an Option"
    );

    let another_identifier = Identifier::from_str("Ie92f183eb4c324804ef4d62962dea94cf095a265")?;
    let missing = creation.repository.retrieve_identity(&another_identifier);
    assert_eq!(missing, None, "a missing identity returns None");

    let root_key = get_secret_key(&mut creation.vault, &identity);
    assert!(root_key.is_ok(), "there is a key for the created identity");

    Ok(())
}

#[test]
fn created_identity_has_one_self_signed_root_change() {
    let mut creation = new_creation();
    let identity = creation.create_identity().unwrap();
    let changes = &identity.change_history().changes;
    assert_eq!(changes.len(), 1);
    assert_eq!(changes[0].previous, None);
    assert_eq!(changes[0].public_key.len(), 32);
    assert_eq!(changes[0].signature.len(), 64);
}

#[test]
fn export_then_decode_gives_back_the_history() {
    let mut creation = new_creation();
    let identity = creation.create_identity().unwrap();
    let bytes = identity.export();
    let decoded = ChangeHistory::decode(&bytes).unwrap();
    assert_eq!(&decoded, identity.change_history());
    assert_eq!(decoded.encode(), bytes);
}

#[test]
fn export_then_import_gives_back_the_identity() {
    let mut creation = new_creation();
    let identity = creation.create_identity().unwrap();
    let rotated = rotate_key(&mut creation.vault, &identity, None).unwrap();
    let bytes = rotated.export();
    let imported = creation.import(Some(rotated.identifier()), &bytes).unwrap();
    assert_eq!(imported, rotated);
}

#[test]
fn identifier_is_the_truncated_digest_of_the_root_change() {
    let mut creation = new_creation();
    let identity = creation.create_identity().unwrap();
    let root = &identity.change_history().changes[0];
    let mut data = vec![0u8];
    data.extend_from_slice(&root.public_key);
    let digest = creation.vault.sha256(&data).unwrap();
    assert_eq!(identity.identifier().as_bytes().as_slice(), &digest[..20]);
    assert_eq!(compute_change_hash(&mut creation.vault, root), digest[..20].to_vec());
}

#[test]
fn identifier_is_unchanged_by_rotation() {
    let mut creation = new_creation();
    let identity = creation.create_identity().unwrap();
    let rotated = rotate_key(&mut creation.vault, &identity, None).unwrap();
    assert_eq!(rotated.identifier(), identity.identifier());
    assert_eq!(rotated.change_history().changes.len(), 2);
    assert_eq!(rotated.change_history().changes[0], identity.change_history().changes[0]);
    let expected_link = compute_change_hash(&mut creation.vault, &identity.change_history().changes[0]);
    assert_eq!(rotated.change_history().changes[1].previous, Some(expected_link));
    let id = verify_change_history(&mut creation.vault, rotated.change_history()).unwrap();
    assert_eq!(&id, identity.identifier());
}

#[test]
fn flipped_signature_bit_in_non_root_change_is_rejected() {
    let mut creation = new_creation();
    let identity = creation.create_identity().unwrap();
    let rotated = rotate_key(&mut creation.vault, &identity, None).unwrap();
    for bit in [0usize, 7, 100, 511] {
        let mut history = rotated.change_history().clone();
        history.changes[1].signature[bit / 8] ^= 1 << (bit % 8);
        let bytes = history.encode();
        let r = Identity::import(None, &bytes, &mut creation.vault);
        assert_eq!(r, Err(IdentityError::InvalidChange));
    }
}

#[test]
fn substituted_public_key_is_rejected() {
    let mut creation = new_creation();
    let identity = creation.create_identity().unwrap();
    let rotated = rotate_key(&mut creation.vault, &identity, None).unwrap();
    let other = creation.create_identity().unwrap();
    let other_key = other.change_history().changes[0].public_key.clone();
    for index in [0usize, 1] {
        let mut history = rotated.change_history().clone();
        history.changes[index].public_key = other_key.clone();
        let r = Identity::import_from_change_history(None, history, &mut creation.vault);
        assert_eq!(r, Err(IdentityError::InvalidChange));
    }
}

#[test]
fn change_signed_by_its_own_new_key_is_rejected() {
    let mut creation = new_creation();
    let identity = creation.create_identity().unwrap();
    let rotated = rotate_key(&mut creation.vault, &identity, None).unwrap();
    // Re-sign the second change with its own key instead of the previous one.
    let secret = get_secret_key(&mut creation.vault, &rotated).unwrap();
    let mut history = rotated.change_history().clone();
    let change = &history.changes[1];
    let mut data = vec![1u8];
    data.extend_from_slice(change.previous.as_ref().unwrap());
    data.extend_from_slice(&change.public_key);
    let sig = ockam_vault::Signer::sign(&mut creation.vault, &secret, &data).unwrap();
    history.changes[1].signature = sig.as_ref().to_vec();
    let r = Identity::import_from_change_history(None, history, &mut creation.vault);
    assert_eq!(r, Err(IdentityError::InvalidChange));
}

#[test]
fn broken_link_is_rejected() {
    let mut creation = new_creation();
    let identity = creation.create_identity().unwrap();
    let rotated = rotate_key(&mut creation.vault, &identity, None).unwrap();
    let mut history = rotated.change_history().clone();
    history.changes[1].previous = Some(vec![0u8; 20]);
    let r = Identity::import_from_change_history(None, history, &mut creation.vault);
    assert_eq!(r, Err(IdentityError::InvalidChange));

    let mut history = rotated.change_history().clone();
    history.changes[0].previous = Some(vec![0u8; 20]);
    let r = Identity::import_from_change_history(None, history, &mut creation.vault);
    assert_eq!(r, Err(IdentityError::InvalidChange));
}

#[test]
fn duplicated_change_is_rejected() {
    let mut creation = new_creation();
    let identity = creation.create_identity().unwrap();
    let rotated = rotate_key(&mut creation.vault, &identity, None).unwrap();
    let mut history = rotated.change_history().clone();
    let second = history.changes[1].clone();
    history.changes.push(second);
    let r = Identity::import_from_change_history(None, history, &mut creation.vault);
    assert_eq!(r, Err(IdentityError::InvalidChange));
}

#[test]
fn malformed_change_lengths_are_rejected() {
    let mut vault = SoftwareVault::default();
    let history = ChangeHistory {
        changes: vec![Change { previous: None, public_key: vec![1u8; 31], signature: vec![2u8; 64] }],
    };
    assert_eq!(
        verify_change_history(&mut vault, &history),
        Err(IdentityError::InvalidChange)
    );
}

#[test]
fn empty_history_is_rejected() {
    let mut vault = SoftwareVault::default();
    let r = Identity::import_from_change_history(None, ChangeHistory { changes: vec![] }, &mut vault);
    assert_eq!(r, Err(IdentityError::InvalidChange));
}

#[test]
fn unsigned_root_change_is_rejected() {
    let mut vault = SoftwareVault::default();
    let history = ChangeHistory {
        changes: vec![Change { previous: None, public_key: vec![9u8; 32], signature: vec![0u8; 64] }],
    };
    let bytes = history.encode();
    assert_eq!(Identity::import(None, &bytes, &mut vault), Err(IdentityError::InvalidChange));
}

#[test]
fn importing_under_another_identifier_fails() {
    let mut creation = new_creation();
    let identity = creation.create_identity().unwrap();
    let bytes = identity.export();
    let other = Identifier::from_str("Ie92f183eb4c324804ef4d62962dea94cf095a265").unwrap();
    assert_eq!(
        creation.import(Some(&other), &bytes),
        Err(IdentityError::IdentifierMismatch)
    );
    let imported = creation.import(None, &bytes).unwrap();
    assert_eq!(imported.identifier(), identity.identifier());
}

#[test]
fn malformed_bytes_fail_to_decode() {
    let mut creation = new_creation();
    let identity = creation.create_identity().unwrap();
    let bytes = identity.export();
    assert_eq!(bytes.len(), 98);
    assert_eq!(creation.import(None, &[]), Err(IdentityError::DecodeError));
    assert_eq!(creation.import(None, &[1u8]), Err(IdentityError::DecodeError));
    assert_eq!(creation.import(None, &bytes[..97]), Err(IdentityError::DecodeError));
    let mut wrong_version = bytes.clone();
    wrong_version[0] = 2;
    assert_eq!(creation.import(None, &wrong_version), Err(IdentityError::DecodeError));
    let mut wrong_tag = bytes.clone();
    wrong_tag[1] = 7;
    assert_eq!(creation.import(None, &wrong_tag), Err(IdentityError::DecodeError));
    let mut trailing = bytes.clone();
    trailing.push(0);
    assert_eq!(creation.import(None, &trailing), Err(IdentityError::DecodeError));
}

#[test]
fn encoding_has_the_documented_layout() {
    let history = ChangeHistory {
        changes: vec![
            Change { previous: None, public_key: vec![1u8; 32], signature: vec![2u8; 64] },
            Change { previous: Some(vec![3u8; 20]), public_key: vec![4u8; 32], signature: vec![5u8; 64] },
        ],
    };
    let bytes = history.encode();
    let mut expected = vec![1u8, 0u8];
    expected.extend_from_slice(&[1u8; 32]);
    expected.extend_from_slice(&[2u8; 64]);
    expected.push(1u8);
    expected.extend_from_slice(&[3u8; 20]);
    expected.extend_from_slice(&[4u8; 32]);
    expected.extend_from_slice(&[5u8; 64]);
    assert_eq!(bytes, expected);
    assert_eq!(bytes.len(), 1 + 97 + 117);
    assert_eq!(ChangeHistory::decode(&bytes), Some(history));
    assert_eq!(ChangeHistory::decode(&[1u8]), None);
}

#[test]
fn identifier_display_form_round_trips() {
    let id = Identifier::from_str("Ie92f183eb4c324804ef4d62962dea94cf095a265").unwrap();
    assert_eq!(id.as_bytes()[0], 0xe9);
    assert_eq!(id.as_bytes()[19], 0x65);
    assert_eq!(id.to_string(), "Ie92f183eb4c324804ef4d62962dea94cf095a265");
    let upper = Identifier::from_str("IE92F183EB4C324804EF4D62962DEA94CF095A265").unwrap();
    assert_eq!(upper, id);
    let fixed = Identifier::from_bytes(vec![0xab; 20]);
    assert_eq!(fixed.to_string(), format!("I{}", "ab".repeat(20)));
}

#[test]
fn malformed_identifier_text_is_rejected() {
    for s in [
        "",
        "I",
        "Ie92f183eb4c324804ef4d62962dea94cf095a26",
        "Ie92f183eb4c324804ef4d62962dea94cf095a2650",
        "Xe92f183eb4c324804ef4d62962dea94cf095a265",
        "Ie92f183eb4c324804ef4d62962dea94cf095a26g",
    ] {
        assert_eq!(Identifier::from_str(s), Err(IdentityError::ParseError));
    }
}

#[test]
fn missing_identity_lookups() {
    let repository = IdentitiesRepository::new();
    let id = Identifier::from_str("Ie92f183eb4c324804ef4d62962dea94cf095a265").unwrap();
    assert_eq!(repository.retrieve_identity(&id), None);
    assert_eq!(repository.get_identity(&id), Err(IdentityError::NotFound));
}

#[test]
fn forked_history_is_rejected_and_stored_record_kept() {
    let mut creation = new_creation();
    let identity = creation.create_identity().unwrap();
    let first = rotate_key(&mut creation.vault, &identity, None).unwrap();
    let second = rotate_key(&mut creation.vault, &identity, None).unwrap();
    assert_ne!(first.change_history(), second.change_history());
    let id = identity.identifier().clone();
    creation.repository.update_identity(&id, first.change_history()).unwrap();
    assert_eq!(
        creation.repository.update_identity(&id, second.change_history()),
        Err(IdentityError::ConflictingHistory)
    );
    assert_eq!(&creation.repository.get_identity(&id).unwrap(), first.change_history());
    // A shorter history is not accepted either.
    assert_eq!(
        creation.repository.update_identity(&id, identity.change_history()),
        Err(IdentityError::ConflictingHistory)
    );
    assert_eq!(&creation.repository.get_identity(&id).unwrap(), first.change_history());
}

#[test]
fn extended_history_is_accepted() {
    let mut creation = new_creation();
    let identity = creation.create_identity().unwrap();
    let id = identity.identifier().clone();
    let rotated = rotate_key(&mut creation.vault, &identity, None).unwrap();
    creation.repository.update_identity(&id, rotated.change_history()).unwrap();
    assert_eq!(&creation.repository.get_identity(&id).unwrap(), rotated.change_history());
    // Re-storing the same history is accepted.
    creation.repository.update_identity(&id, rotated.change_history()).unwrap();
    assert_eq!(&creation.repository.get_identity(&id).unwrap(), rotated.change_history());
}

#[test]
fn repository_keeps_identities_apart() {
    let mut creation = new_creation();
    let a = creation.create_identity().unwrap();
    let b = creation.create_identity().unwrap();
    assert_ne!(a.identifier(), b.identifier());
    assert_eq!(&creation.repository.get_identity(a.identifier()).unwrap(), a.change_history());
    assert_eq!(&creation.repository.get_identity(b.identifier()).unwrap(), b.change_history());
}

#[test]
fn initial_key_can_reuse_a_stored_secret() {
    let mut vault = SoftwareVault::default();
    let secret = vault
        .secret_generate(ockam_vault::SecretAttributes::new(
            ockam_vault::ockam_vault_core::SecretType::Curve25519,
            ockam_vault::ockam_vault_core::SecretPersistence::Persistent,
            32,
        ))
        .unwrap();
    let public_key = vault.secret_public_key_get(&secret).unwrap();
    let key_id = vault.compute_key_id_for_public_key(&public_key).unwrap();
    let identity = create_initial_key(&mut vault, Some(&key_id)).unwrap();
    assert_eq!(identity.change_history().changes[0].public_key, public_key.as_ref().to_vec());
    assert_eq!(
        create_initial_key(&mut vault, Some("no such key")),
        Err(IdentityError::KeyNotFound)
    );
}

#[test]
fn secret_key_is_missing_from_another_vault() {
    let mut creation = new_creation();
    let identity = creation.create_identity().unwrap();
    let mut other = SoftwareVault::default();
    let imported = Identity::import(None, &identity.export(), &mut other).unwrap();
    assert_eq!(imported, identity);
    assert_eq!(get_secret_key(&mut other, &imported).err(), Some(IdentityError::KeyNotFound));
}

#[test]
fn import_does_not_persist() {
    let mut creation = new_creation();
    let mut other = new_creation();
    let identity = other.create_identity().unwrap();
    let imported = creation.import(None, &identity.export()).unwrap();
    assert_eq!(creation.repository.retrieve_identity(imported.identifier()), None);
}

#[test]
fn authorized_key_id_names_the_last_key() {
    let mut creation = new_creation();
    let identity = creation.create_identity().unwrap();
    let root_key = identity.change_history().changes[0].public_key.clone();
    let digest = creation.vault.sha256(&root_key).unwrap();
    let expected: String = digest.iter().map(|b| format!("{:02x}", b)).collect();
    assert_eq!(authorized_key_id(&mut creation.vault, &identity), expected);

    let rotated = rotate_key(&mut creation.vault, &identity, None).unwrap();
    let new_key = rotated.change_history().changes[1].public_key.clone();
    let digest = creation.vault.sha256(&new_key).unwrap();
    let expected: String = digest.iter().map(|b| format!("{:02x}", b)).collect();
    let actual = authorized_key_id(&mut creation.vault, &rotated);
    assert_eq!(actual, expected);
    assert_ne!(actual, authorized_key_id(&mut creation.vault, &identity));
    assert!(get_secret_key(&mut creation.vault, &rotated).is_ok());
}

#[test]
fn persist_identity_follows_reconciliation() {
    let mut creation = new_creation();
    let identity = creation.create_identity().unwrap();
    let rotated = rotate_key(&mut creation.vault, &identity, None).unwrap();
    let stored = creation.persist_identity(rotated.clone()).unwrap();
    assert_eq!(stored, rotated);
    assert_eq!(
        creation.persist_identity(identity.clone()),
        Err(IdentityError::ConflictingHistory)
    );
    assert_eq!(
        &creation.repository.get_identity(identity.identifier()).unwrap(),
        rotated.change_history()
    );
}
