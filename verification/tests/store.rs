use kotva_mail::store::{
    decode_state_map, encode_state_map, Delivery, Flag, JmapObj, MailStore, Mailbox, MemoryStore,
    Message, SpecialUse, StoreError,
};

#[test]
fn flag_parse_round_trip() {
    for f in [Flag::Seen, Flag::Answered, Flag::Deleted, Flag::Keyword("$Label".into())] {
        assert_eq!(Flag::parse(&f.imap()), f);
    }
    assert_eq!(Flag::parse("\\SEEN"), Flag::Seen);
}

#[test]
fn special_use_names() {
    assert_eq!(SpecialUse::Inbox.attribute(), None);
    assert_eq!(SpecialUse::Sent.attribute(), Some("\\Sent"));
    assert_eq!(SpecialUse::Junk.jmap_role(), "junk");
}

#[test]
fn delivery_outcomes() {
    assert_eq!(Delivery::Stored(7).uid(), Some(7));
    assert!(Delivery::Stored(7).is_stored());
    assert_eq!(Delivery::Ephemeral(vec![1]).uid(), None);
    assert!(!Delivery::NoSuchMailbox.is_stored());
}

#[test]
fn special_use_folders_exist() {
    let s = MemoryStore::new();
    assert!(s.mailbox("INBOX").is_some());
    assert_eq!(s.by_role(SpecialUse::Sent), Some("Sent"));
    assert_eq!(s.by_role(SpecialUse::Trash), Some("Trash"));
}

#[test]
fn append_assigns_uids_and_modseq() {
    let mut s = MemoryStore::empty();
    let u1 = s.deliver_raw("INBOX", b"a".to_vec(), vec![Flag::Recent], 0).unwrap();
    let u2 = s.deliver_raw("INBOX", b"b".to_vec(), vec![], 0).unwrap();
    assert_eq!((u1, u2), (1, 2));
    let mb = s.mailbox("INBOX").unwrap();
    assert_eq!(mb.exists_count(), 2);
    assert!(mb.messages[1].modseq > mb.messages[0].modseq);
}

#[test]
fn create_delete_rename() {
    let mut s = MemoryStore::empty();
    assert!(s.create("Work").is_ok());
    assert_eq!(s.create("Work"), Err(StoreError::AlreadyExists));
    assert!(s.rename("Work", "Projects").is_ok());
    assert!(s.mailbox("Projects").is_some());
    assert_eq!(s.delete("INBOX"), Err(StoreError::InboxImmutable));
    assert!(s.delete("Projects").is_ok());
}

#[test]
fn recreated_mailbox_gets_a_fresh_uidvalidity() {
    let mut s = MemoryStore::empty();
    s.create("Work").unwrap();
    let uv1 = s.mailbox("Work").unwrap().uid_validity;
    s.deliver_raw("Work", b"one".to_vec(), vec![], 0);
    assert_eq!(s.mailbox("Work").unwrap().max_uid(), 1);
    s.delete("Work").unwrap();
    s.create("Work").unwrap();
    let uv2 = s.mailbox("Work").unwrap().uid_validity;
    assert!(uv2 > uv1, "recreated mailbox must advertise a strictly larger UIDVALIDITY ({uv1} -> {uv2})");
    s.deliver_raw("Work", b"different".to_vec(), vec![], 0);
    assert_eq!(s.mailbox("Work").unwrap().max_uid(), 1);
    s.create("Other").unwrap();
    assert_ne!(s.mailbox("Other").unwrap().uid_validity, uv2);
}

#[test]
fn index_of_uid_is_binary_search() {
    let mut s = MemoryStore::empty();
    for i in 0..1000u32 {
        s.deliver_raw("INBOX", vec![(i % 256) as u8], vec![], 0);
    }
    let mb = s.mailbox("INBOX").unwrap();
    assert_eq!(mb.index_of_uid(1), Some(0));
    assert_eq!(mb.index_of_uid(500), Some(499));
    assert_eq!(mb.index_of_uid(1000), Some(999));
    assert_eq!(mb.index_of_uid(1001), None);
    assert_eq!(mb.max_uid(), 1000);
}

#[test]
fn remove_at_records_vanished() {
    let mut s = MemoryStore::empty();
    for _ in 0..4 {
        s.deliver_raw("INBOX", b"x".to_vec(), vec![], 0);
    }
    let mb = s.mailbox_mut("INBOX").unwrap();
    let base = mb.highest_modseq;
    mb.remove_at(1);
    mb.remove_at(1);
    assert_eq!(mb.exists_count(), 2);
    let vanished = mb.vanished_since(base);
    assert_eq!(vanished, vec![2, 3]);
    assert!(mb.vanished_since(mb.highest_modseq).is_empty());
}

#[test]
fn jmap_state_token_round_trips() {
    let s = MemoryStore::new();
    let token = s.jmap_state();
    let map = decode_state_map(&token).unwrap();
    assert!(map.iter().any(|(k, _)| k == "INBOX"));
    assert!(decode_state_map("0").unwrap().is_empty());
    assert!(decode_state_map("").unwrap().is_empty());
    assert!(decode_state_map("@@not base64@@").is_none());
}

#[test]
fn jmap_changes_delta_from_modseq() {
    let mut s = MemoryStore::empty();
    s.deliver_raw("INBOX", b"one".to_vec(), vec![], 0);
    let state0 = s.jmap_state();
    s.deliver_raw("INBOX", b"two".to_vec(), vec![], 0);
    let ch = s.jmap_changes(JmapObj::Email, &state0).unwrap();
    assert_eq!(ch.created, vec!["INBOX|2"]);
    assert!(ch.updated.is_empty());
    assert!(ch.destroyed.is_empty());
    let mch = s.jmap_changes(JmapObj::Mailbox, &state0).unwrap();
    assert_eq!(mch.updated, vec!["INBOX"]);
}

#[test]
fn state_map_is_sorted_and_round_trips() {
    let map = vec![("Archive".to_string(), 3u64), ("INBOX".to_string(), 9), ("Zeta".to_string(), 0)];
    let token = encode_state_map(&map);
    assert_eq!(decode_state_map(&token).unwrap(), map);
    // The token of a store lists mailboxes by name, whatever their creation order.
    let s = MemoryStore::new();
    let names: Vec<String> = decode_state_map(&s.jmap_state()).unwrap().into_iter().map(|(k, _)| k).collect();
    assert_eq!(names, vec!["Archive", "Drafts", "INBOX", "Junk", "Sent", "Trash"]);
    assert!(decode_state_map("AAAA").is_none());
}

#[test]
fn flags_set_and_clear_and_counts() {
    let mut m = Message::new(7, vec![Flag::Seen], 0, 1, b"x".to_vec());
    m.set_flag(Flag::Seen);
    assert_eq!(m.flags.len(), 1);
    m.set_flag(Flag::Keyword(b"$Label".to_vec()));
    assert!(m.has_flag(&Flag::Keyword(b"$Label".to_vec())));
    m.clear_flag(&Flag::Seen);
    assert!(!m.has_flag(&Flag::Seen));
    assert_eq!(m.size(), 1);
    let mut mb = Mailbox::new("X", None);
    mb.append(b"a".to_vec(), vec![Flag::Recent], 0);
    mb.append(b"b".to_vec(), vec![Flag::Seen], 0);
    assert_eq!((mb.recent(), mb.unseen(), mb.first_unseen_seq()), (1, 1, Some(1)));
    assert_eq!(mb.seq_of_uid(2), Some(2));
    assert_eq!(mb.by_uid(2).map(|m| m.raw.clone()), Some(b"b".to_vec()));
    assert_eq!(mb.remove_at(5), None);
}

#[test]
fn jmap_changes_reports_destroyed_and_mailbox_moves() {
    let mut s = MemoryStore::empty();
    s.deliver_raw("INBOX", b"one".to_vec(), vec![], 0);
    s.create("Work").unwrap();
    let state0 = s.jmap_state();
    s.mailbox_mut("INBOX").unwrap().remove_at(0);
    s.delete("Work").unwrap();
    s.create("New").unwrap();
    let ch = s.jmap_changes(JmapObj::Email, &state0).unwrap();
    assert_eq!(ch.destroyed, vec!["INBOX|1"]);
    let mch = s.jmap_changes(JmapObj::Mailbox, &state0).unwrap();
    assert_eq!(mch.created, vec!["New"]);
    assert_eq!(mch.updated, vec!["INBOX"]);
    assert_eq!(mch.destroyed, vec!["Work"]);
    assert!(s.jmap_changes(JmapObj::Email, "!!").is_none());
}

#[test]
fn sensitive_mote_is_never_stored() {
    let mut s = MemoryStore::new();
    let d = s.deliver_mote(b"Subject: x\r\n\r\nsecret".to_vec(), Some(true), "INBOX", 1);
    assert_eq!(d, Delivery::Ephemeral(b"Subject: x\r\n\r\nsecret".to_vec()));
    assert_eq!(s.mailbox("INBOX").unwrap().exists_count(), 0);
    let d = s.deliver_mote(b"Subject: y\r\n\r\nplain".to_vec(), None, "INBOX", 2);
    assert!(d.is_stored());
    assert_eq!(s.mailbox("INBOX").unwrap().exists_count(), 1);
    assert_eq!(s.deliver_mote(b"x".to_vec(), Some(false), "Nowhere", 3), Delivery::NoSuchMailbox);
}
