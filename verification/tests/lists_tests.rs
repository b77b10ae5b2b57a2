use pistachio_dictionary::error::AppError;
use pistachio_dictionary::lists::{
    add_to_list, create_list, export_list_tsv, list_updated, move_item, placement, require_found,
    validate_list_name, Placement,
};
use pistachio_dictionary::search::EntrySummary;

fn entry(id: i64, simplified: &str, traditional: &str, pinyin: &str, defs: &str) -> EntrySummary {
    EntrySummary {
        id,
        traditional: traditional.to_string(),
        simplified: simplified.to_string(),
        pinyin_marks: pinyin.to_string(),
        definitions: defs.to_string(),
    }
}

fn is_uuid(s: &str) -> bool {
    uuid::Uuid::parse_str(s).map(|u| u.get_version_num() == 4).unwrap_or(false)
        && s == s.to_lowercase()
        && s.len() == 36
}

#[test]
fn list_names_are_trimmed_and_required() {
    assert_eq!(validate_list_name("  HSK 1 "), Ok("HSK 1".to_string()));
    assert_eq!(
        validate_list_name(" \t "),
        Err(AppError::Invalid("list name cannot be empty".into()))
    );
}

#[test]
fn create_list_makes_a_pending_empty_list() {
    let l = create_list(" Food ").unwrap();
    assert_eq!(l.name, "Food");
    assert_eq!(l.item_count, 0);
    assert_eq!(l.sync_state, "pending");
    assert!(is_uuid(&l.id));
    assert!(chrono::DateTime::parse_from_rfc3339(&l.updated_at).is_ok());
    let other = create_list("Food").unwrap();
    assert_ne!(l.id, other.id);
    assert_eq!(create_list(""), Err(AppError::Invalid("list name cannot be empty".into())));
}

#[test]
fn guarded_lookups() {
    assert_eq!(require_found(Ok(Some(3)), "item", "x"), Ok(3));
    assert_eq!(
        require_found::<i32>(Ok(None), "item", "abc"),
        Err(AppError::NotFound("item abc".into()))
    );
    assert_eq!(
        require_found::<i32>(Err(AppError::Db("e".into())), "item", "abc"),
        Err(AppError::Db("e".into()))
    );
    assert_eq!(list_updated("L1", 1), Ok(()));
    assert_eq!(list_updated("L1", 0), Err(AppError::NotFound("list L1".into())));
}

#[test]
fn add_to_list_checks_list_entry_and_duplicates_in_order() {
    let e = entry(42, "开心", "開心", "kāi xīn", "happy");
    let ok = add_to_list("L", 42, Ok(Some("HSK".into())), Ok(Some(e.clone())), Ok(None)).unwrap();
    assert_eq!(ok.list_name, "HSK");
    assert_eq!(ok.entry, e);
    assert!(is_uuid(&ok.item_id));
    assert_eq!(
        add_to_list("L", 42, Ok(None), Err(AppError::Db("x".into())), Ok(None)),
        Err(AppError::NotFound("list L".into()))
    );
    assert_eq!(
        add_to_list("L", 42, Ok(Some("HSK".into())), Ok(None), Ok(Some("i".into()))),
        Err(AppError::NotFound("entry 42".into()))
    );
    let dup = add_to_list("L", 42, Ok(Some("HSK".into())), Ok(Some(e.clone())), Ok(Some("i".into())));
    assert_eq!(dup, Err(AppError::Duplicate("'开心' is already in list 'HSK'".into())));
    assert!(dup.unwrap_err().message().starts_with("duplicate:"));
    assert_eq!(
        add_to_list("L", 42, Ok(Some("HSK".into())), Ok(Some(e)), Err(AppError::Db("d".into()))),
        Err(AppError::Db("d".into()))
    );
    assert_eq!(
        add_to_list("L", 42, Err(AppError::Db("l".into())), Ok(None), Ok(None)),
        Err(AppError::Db("l".into()))
    );
}

#[test]
fn moves_choose_neighbours() {
    assert_eq!(placement(0, 3), Placement::Alone);
    assert_eq!(placement(4, 0), Placement::First);
    assert_eq!(placement(4, 4), Placement::Last);
    assert_eq!(placement(4, 99), Placement::Last);
    assert_eq!(placement(4, 1), Placement::Between(1));
    assert_eq!(placement(4, 3), Placement::Between(3));
}

#[test]
fn moving_needs_a_live_item() {
    assert_eq!(
        move_item("it-1", Ok(Some("list-1".to_string())), 4, 2),
        Ok(("list-1".to_string(), Placement::Between(2)))
    );
    assert_eq!(
        move_item("it-1", Ok(Some("list-1".to_string())), 0, 2),
        Ok(("list-1".to_string(), Placement::Alone))
    );
    assert_eq!(
        move_item("it-9", Ok(None), 4, 2),
        Err(AppError::NotFound("item it-9".to_string()))
    );
    assert_eq!(
        move_item("it-1", Err(AppError::Db("locked".to_string())), 4, 2),
        Err(AppError::Db("locked".to_string()))
    );
}

#[test]
fn tsv_export_in_order() {
    let items = vec![
        entry(1, "开心", "開心", "kāi xīn", "happy\tcheerful\nglad"),
        entry(2, "心", "心", "xīn", "heart"),
    ];
    assert_eq!(
        export_list_tsv(&items),
        "Simplified\tTraditional\tPinyin\tEnglish\n开心\t開心\tkāi xīn\thappy cheerful glad\n心\t心\txīn\theart\n"
    );
    assert_eq!(export_list_tsv(&vec![]), "Simplified\tTraditional\tPinyin\tEnglish\n");
    assert_eq!(export_list_tsv(&items).matches('\n').count(), items.len() + 1);
}
