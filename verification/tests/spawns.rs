use world::quest::QuestgiverMark;
use world::spawns::{Questgivers, SpawnCacheError};

const STRANGER: u64 = 0xf130_0003_3701_9999;
const KALIMDOR: u64 = 0xf130_0003_3702_0000;
const SILENT: u64 = 0xf130_0003_3702_0001;
const NAMELESS: u64 = 0x1122_3344_5566_7788;
const UNASKED: u64 = 0xdead_beef_0000_0001;

fn see(givers: &mut Questgivers, guid: u64, entry: u32, map: u32, x: f32, y: f32, z: f32) {
    let far = |known: u32, here: f32| (f32::from_bits(known) - here).abs() > 2.0;
    let moved = match givers.get(guid) {
        Some(known) => far(known.x, x) || far(known.y, y) || far(known.z, z),
        None => true,
    };
    givers.see(guid, entry, map, x.to_bits(), y.to_bits(), z.to_bits(), moved);
}

const WILLEM: u64 = 0xf130_0003_3701_2a8c;

fn seen_willem() -> Questgivers {
    let mut givers = Questgivers::new();
    see(&mut givers, WILLEM, 823, 0, -8928.0, -187.0, 82.0);
    givers
}

#[test]
fn seen_and_asked_and_told_nothing_are_three_states() {
    let mut givers = seen_willem();
    assert_eq!(givers.get(WILLEM).unwrap().mark, None);
    assert!(!givers.get(WILLEM).unwrap().is_drawn());

    givers.mark(WILLEM, QuestgiverMark::Nothing, 100);
    assert_eq!(givers.get(WILLEM).unwrap().mark, Some(QuestgiverMark::Nothing));
    assert!(
        !givers.get(WILLEM).unwrap().is_drawn(),
        "the server said there is nothing here"
    );

    givers.mark(WILLEM, QuestgiverMark::Available, 200);
    assert!(givers.get(WILLEM).unwrap().is_drawn());
    assert_eq!(givers.get(WILLEM).unwrap().seen, 200);
}

#[test]
fn a_mark_with_no_sighting_is_not_a_pin() {
    let mut givers = Questgivers::new();
    givers.mark(WILLEM, QuestgiverMark::Available, 1);
    assert!(givers.is_empty());
    assert!(!givers.is_dirty());
}

#[test]
fn a_creature_that_has_not_moved_does_not_dirty_the_cache() {
    let mut givers = seen_willem();
    assert!(givers.is_dirty(), "the first sighting is news");
    givers.saved();
    assert!(!givers.is_dirty(), "a save is the end of the news");

    see(&mut givers, WILLEM, 823, 0, -8928.4, -186.8, 82.1);
    assert!(!givers.is_dirty(), "a tenth of a unit is not a move");

    see(&mut givers, WILLEM, 823, 0, -8900.0, -187.0, 82.0);
    assert!(givers.is_dirty());
    assert_eq!(f32::from_bits(givers.get(WILLEM).unwrap().x), -8900.0);
}

#[test]
fn a_reused_guid_replaces_the_record_rather_than_moving_it() {
    let mut givers = seen_willem();
    givers.mark(WILLEM, QuestgiverMark::Available, 5);
    assert!(givers.get(WILLEM).unwrap().is_drawn());

    see(&mut givers, WILLEM, 12345, 0, 100.0, 200.0, 300.0);
    let known = givers.get(WILLEM).unwrap();
    assert_eq!(known.entry, 12345);
    assert_eq!(known.mark, None, "the old mark did not follow the guid");
    assert!(!known.is_drawn());
}

#[test]
fn a_map_change_replaces_the_record_too() {
    let mut givers = seen_willem();
    givers.mark(WILLEM, QuestgiverMark::Complete, 5);
    see(&mut givers, WILLEM, 823, 1, 100.0, 200.0, 300.0);
    assert_eq!(givers.get(WILLEM).unwrap().mark, None);
}

#[test]
fn accepting_a_quest_retires_only_the_giver_that_was_known_to_offer_it() {
    let mut givers = seen_willem();
    givers.mark(WILLEM, QuestgiverMark::Available, 1);
    givers.offers(WILLEM, &[783]);

    see(&mut givers, STRANGER, 197, 0, -8900.0, -180.0, 82.0);
    givers.mark(STRANGER, QuestgiverMark::Available, 1);

    assert_eq!(givers.forget_offering(&[783]), 1);
    assert_eq!(givers.get(WILLEM).unwrap().mark, None);
    assert!(
        givers.get(STRANGER).unwrap().is_drawn(),
        "an NPC whose offer was never seen keeps its mark"
    );

    assert_eq!(givers.forget_offering(&[783]), 0);
}

#[test]
fn a_giver_with_more_to_offer_keeps_exclaiming() {
    let mut givers = seen_willem();
    givers.mark(WILLEM, QuestgiverMark::Available, 1);
    givers.offers(WILLEM, &[783, 7]);
    assert_eq!(givers.forget_offering(&[783]), 0);
    assert!(givers.get(WILLEM).unwrap().is_drawn());
    assert_eq!(givers.forget_offering(&[783, 7]), 1);
}

#[test]
fn only_drawable_marks_on_the_asked_for_map_come_back() {
    let mut givers = seen_willem();
    givers.mark(WILLEM, QuestgiverMark::Available, 1);
    see(&mut givers, KALIMDOR, 1, 1, 0.0, 0.0, 0.0);
    givers.mark(KALIMDOR, QuestgiverMark::Available, 1);
    see(&mut givers, SILENT, 2, 0, 0.0, 0.0, 0.0);
    givers.mark(SILENT, QuestgiverMark::Nothing, 1);

    let on_zero: Vec<u64> = givers.on_map(0).iter().map(|known| known.guid).collect();
    assert_eq!(on_zero, vec![WILLEM]);
    assert_eq!(givers.on_map(1).len(), 1);
    assert_eq!(givers.on_map(2).len(), 0);
}

#[test]
fn a_cache_survives_a_save_and_a_load() {
    let mut givers = Questgivers::new();
    see(&mut givers, WILLEM, 823, 0, -8928.5, -187.25, 82.75);
    givers.mark(WILLEM, QuestgiverMark::Available, 1_700_000_000);
    givers.offers(WILLEM, &[783, 7]);

    see(&mut givers, NAMELESS, 4242, 571, 1.5, -2.5, 3.5);
    givers.mark(NAMELESS, QuestgiverMark::Unknown(9), 42);

    see(&mut givers, UNASKED, 1, 1, 0.0, 0.0, 0.0);

    let back = Questgivers::decode(&givers.encode()).unwrap();

    assert_eq!(back.len(), 3);
    for guid in [WILLEM, NAMELESS, UNASKED] {
        let mut before = givers.get(guid).unwrap().clone();
        before.live = false;
        assert_eq!(
            &before,
            back.get(guid).unwrap(),
            "record {guid:#018x} did not survive"
        );
    }
    assert_eq!(
        back.get(NAMELESS).unwrap().mark,
        Some(QuestgiverMark::Unknown(9))
    );
    assert_eq!(back.get(UNASKED).unwrap().mark, None);
    assert!(!back.is_dirty(), "loading is not learning");
}

#[test]
fn a_loaded_record_is_never_live() {
    let mut givers = seen_willem();
    givers.mark(WILLEM, QuestgiverMark::Available, 7);
    assert!(givers.get(WILLEM).unwrap().live, "asked this session");

    let back = Questgivers::decode(&givers.encode()).unwrap();
    assert!(!back.get(WILLEM).unwrap().live);
    assert!(back.get(WILLEM).unwrap().is_drawn(), "still worth drawing");
}

#[test]
fn a_truncated_file_is_an_error() {
    let mut givers = seen_willem();
    givers.mark(WILLEM, QuestgiverMark::Available, 1);
    let bytes = givers.encode();
    assert!(matches!(
        Questgivers::decode(&bytes[..bytes.len() - 4]),
        Err(SpawnCacheError::Truncated)
    ));
}

#[test]
fn the_path_names_the_character_as_well_as_the_realm() {
    let wolf = Questgivers::path_for("AzerothCore", "Testwolf");
    let druid = Questgivers::path_for("AzerothCore", "Testdruid");
    assert_ne!(wolf, druid);
    let nasty = Questgivers::path_for("../../etc", "a/b");
    assert_eq!(nasty, "questgivers-______etc-a_b.cache");
}

#[test]
fn offers_merge_without_repeating_themselves() {
    let mut givers = seen_willem();
    givers.offers(WILLEM, &[783]);
    givers.offers(WILLEM, &[7, 783]);
    assert_eq!(givers.get(WILLEM).unwrap().offers, vec![7, 783]);

    givers.saved();
    givers.offers(WILLEM, &[783, 7]);
    assert!(!givers.is_dirty(), "nothing new was learned");
}

#[test]
fn a_file_of_something_else_is_loud_and_another_version_is_empty() {
    assert!(matches!(
        Questgivers::decode(b"this is not a cache"),
        Err(SpawnCacheError::NotACache)
    ));
    assert!(matches!(Questgivers::decode(b"OWQ"), Err(SpawnCacheError::Truncated)));
    let mut newer = seen_willem().encode();
    newer[4] = 9;
    assert!(Questgivers::decode(&newer).unwrap().is_empty());
}

#[test]
fn the_file_lists_its_records_by_guid() {
    let mut givers = Questgivers::default();
    see(&mut givers, 7, 1, 2, 0.0, 0.0, 0.0);
    see(&mut givers, 3, 4, 5, 1.0, 0.0, 0.0);
    let file = givers.encode();
    assert_eq!(&file[..12], b"OWQG\x01\0\0\0\x02\0\0\0");
    assert_eq!(&file[12..20], &3u64.to_le_bytes());
    assert_eq!(file[12 + 28], 0xFF);
    assert_eq!(&file[12 + 41..12 + 49], &7u64.to_le_bytes());
    let order: Vec<u64> = givers.iter().iter().map(|known| known.guid).collect();
    assert_eq!(order, vec![3, 7]);
}

#[test]
fn a_repeated_answer_keeps_its_first_time() {
    let mut givers = seen_willem();
    givers.mark(WILLEM, QuestgiverMark::Available, 5);
    givers.saved();
    givers.mark(WILLEM, QuestgiverMark::Available, 9);
    assert_eq!(givers.get(WILLEM).unwrap().seen, 5);
    assert!(!givers.is_dirty());
}

#[test]
fn the_status_that_is_the_files_own_word_comes_back_unasked() {
    let mut givers = seen_willem();
    givers.mark(WILLEM, QuestgiverMark::Unknown(0xFF), 5);
    let back = Questgivers::decode(&givers.encode()).unwrap();
    assert_eq!(back.get(WILLEM).unwrap().mark, None);
}

#[test]
fn spawn_errors_say_what_is_wrong() {
    assert_eq!(SpawnCacheError::NotACache.message(), "that file is not a questgiver cache");
    assert_eq!(
        SpawnCacheError::Truncated.message(),
        "the questgiver cache ends in the middle of a record"
    );
}
