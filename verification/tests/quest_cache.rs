use world::quest_cache::{Answer, CacheError, QuestCache, ASK_AT_ONCE};

fn body(id: u32) -> Vec<u8> {
    body_with_item(id, 0, 0)
}

fn body_with_item(id: u32, item: u32, count: u32) -> Vec<u8> {
    let mut body = vec![0u8; 260];
    body[..4].copy_from_slice(&id.to_le_bytes());
    body.extend_from_slice(&[0; 5]);
    body.extend_from_slice(&[0u8; 4 * 4 * 4]);
    body.extend_from_slice(&item.to_le_bytes());
    body.extend_from_slice(&count.to_le_bytes());
    body.extend_from_slice(&[0u8; 5 * 2 * 4]);
    body.extend_from_slice(&[0; 4]);
    body
}

#[test]
fn unknown_pending_and_unanswered_are_three_different_things() {
    let mut cache = QuestCache::new();
    assert_eq!(cache.answer(783), Answer::Unknown);

    assert_eq!(cache.take_unknown(&[783], 8), vec![783]);
    assert_eq!(cache.answer(783), Answer::Pending);

    cache.give_up(783);
    assert_eq!(cache.answer(783), Answer::Unanswered);
    assert!(
        !matches!(cache.answer(783), Answer::Known(_)),
        "a silence must never read as a described quest"
    );
}

#[test]
fn an_id_already_in_flight_is_not_asked_again() {
    let mut cache = QuestCache::new();
    assert_eq!(cache.take_unknown(&[783, 16], 8), vec![783, 16]);
    assert!(cache.take_unknown(&[783, 16], 8).is_empty());
}

#[test]
fn a_known_id_is_not_asked_again() {
    let mut cache = QuestCache::new();
    cache.insert(&body(783)).unwrap();
    assert!(cache.take_unknown(&[783], 8).is_empty());
}

#[test]
fn zero_is_never_asked_about() {
    let mut cache = QuestCache::new();
    assert!(cache.take_unknown(&[0], 8).is_empty());
    assert_eq!(cache.answer(0), Answer::Unknown);
}

#[test]
fn the_batch_limit_takes_the_front_of_the_list() {
    let mut cache = QuestCache::new();
    assert_eq!(cache.take_unknown(&[5, 6, 7, 8], 2), vec![5, 6]);
    assert_eq!(cache.answer(7), Answer::Unknown);
}

#[test]
fn a_logged_quests_item_objective_is_asked_for_before_its_carried() {
    let mut cache = QuestCache::new();
    cache.insert(&body_with_item(333, 11119, 1)).unwrap();

    assert_eq!(cache.item_objective_entries(&[333]), vec![11119]);
    assert!(cache.item_objective_entries(&[16]).is_empty());
    cache.insert(&body(85)).unwrap();
    assert!(cache.item_objective_entries(&[85]).is_empty());
}

#[test]
fn a_saved_cache_loads_back() {
    let mut cache = QuestCache::new();
    cache.insert(&body(783)).unwrap();
    cache.insert(&body(16)).unwrap();
    assert!(cache.is_dirty());

    let loaded = QuestCache::decode(&cache.encode()).unwrap();
    assert_eq!(loaded.len(), 2);
    assert!(matches!(loaded.answer(783), Answer::Known(q) if q.id == 783));
    assert!(matches!(loaded.answer(16), Answer::Known(q) if q.id == 16));
    assert!(!loaded.is_dirty());
}

#[test]
fn an_unanswered_id_does_not_survive_a_save() {
    let mut cache = QuestCache::new();
    cache.take_unknown(&[783], 8);
    cache.give_up(783);

    let loaded = QuestCache::decode(&cache.encode()).unwrap();
    assert_eq!(
        loaded.answer(783),
        Answer::Unknown,
        "a session that got no answer must not teach the next one to stop asking"
    );
}

#[test]
fn a_file_that_is_not_a_cache_is_refused() {
    assert!(matches!(
        QuestCache::decode(b"this is not a quest cache at all"),
        Err(CacheError::NotACache)
    ));
}

#[test]
fn each_realm_gets_its_own_file() {
    assert_ne!(QuestCache::path_for("AzerothCore"), QuestCache::path_for("NekoCore"));
    assert_eq!(QuestCache::path_for("AzerothCore"), "quests-AzerothCore.cache");
    let nasty = QuestCache::path_for("../../etc");
    assert_eq!(nasty, "quests-______etc.cache");
}

#[test]
fn the_file_is_the_same_whatever_the_order_of_discovery() {
    let mut one = QuestCache::new();
    let mut other = QuestCache::new();
    for id in [9, 3, 70_000, 12] {
        one.insert(&body(id)).unwrap();
    }
    for id in [12, 70_000, 3, 9] {
        other.insert(&body(id)).unwrap();
    }
    assert_eq!(one.encode(), other.encode());
    let file = one.encode();
    assert_eq!(&file[..12], b"OWQC\x01\0\0\0\x04\0\0\0");
    assert_eq!(&file[12..16], &3u32.to_le_bytes());
    assert_eq!(&file[16..20], &(body(3).len() as u32).to_le_bytes());
    assert_eq!(&file[20..20 + body(3).len()], &body(3)[..]);
}

#[test]
fn a_file_cut_short_is_an_error_and_another_version_is_empty() {
    let mut cache = QuestCache::new();
    cache.insert(&body(783)).unwrap();
    let file = cache.encode();
    for cut in 0..file.len() {
        assert!(
            matches!(QuestCache::decode(&file[..cut]), Err(CacheError::Truncated)),
            "{cut} bytes"
        );
    }
    let mut newer = file.clone();
    newer[4] = 2;
    assert!(QuestCache::decode(&newer).unwrap().is_empty());
}

#[test]
fn a_body_that_no_longer_parses_is_dropped() {
    let mut cache = QuestCache::new();
    cache.insert(&body(783)).unwrap();
    cache.insert(&body(784)).unwrap();
    let mut file = cache.encode();
    let first = body(783).len();
    // The last byte of the first body ends its last string.
    file[12 + 8 + first - 1] = 1;
    let loaded = QuestCache::decode(&file).unwrap();
    assert_eq!(loaded.answer(783), Answer::Unknown);
    assert!(matches!(loaded.answer(784), Answer::Known(_)));
}

#[test]
fn a_save_is_the_end_of_the_news() {
    let mut cache = QuestCache::new();
    cache.insert(&body(783)).unwrap();
    assert!(cache.is_dirty());
    let file = cache.encode();
    cache.saved();
    assert!(!cache.is_dirty(), "nothing was learned since the save");
    assert!(matches!(cache.answer(783), Answer::Known(q) if q.id == 783));
    assert_eq!(cache.encode(), file);

    assert_eq!(cache.take_unknown(&[783, 16], 8), vec![16]);
    cache.give_up(16);
    assert!(!cache.is_dirty(), "a question without an answer is not news");

    cache.insert(&body(85)).unwrap();
    assert!(cache.is_dirty());
    cache.saved();
    assert!(!cache.is_dirty());
}

#[test]
fn a_body_that_does_not_parse_changes_nothing() {
    let mut cache = QuestCache::new();
    assert!(cache.insert(&[1, 2, 3]).is_err());
    assert!(cache.is_empty());
    assert!(!cache.is_dirty());
}

#[test]
fn what_is_waiting_is_listed_and_settled_by_its_answer() {
    let mut cache = QuestCache::default();
    assert_eq!(cache.take_unknown(&[7, 5, 7, 0, 6], ASK_AT_ONCE), vec![7, 5, 6]);
    assert_eq!(cache.pending(), vec![5, 6, 7]);
    assert_eq!(cache.insert(&body(6)).unwrap(), 6);
    assert_eq!(cache.pending(), vec![5, 7]);
    cache.give_up(6);
    assert!(matches!(cache.answer(6), Answer::Known(_)));
    assert!(cache.take_unknown(&[5, 6, 7], 0).is_empty());
}

#[test]
fn cache_errors_say_what_is_wrong() {
    assert_eq!(CacheError::NotACache.message(), "that file is not a quest cache");
    assert_eq!(
        CacheError::Truncated.message(),
        "the quest cache ends in the middle of an entry"
    );
}
