use pistachio_dictionary::db::{dict_copy_up_to_date, dict_file_uri, now, DICT_COPY_VERSION};

#[test]
fn unix_paths_become_read_only_uris() {
    assert_eq!(dict_file_uri("/home/a/dictionary.db"), "file:/home/a/dictionary.db?mode=ro");
    assert_eq!(
        dict_file_uri("/home/Zoë Li/my data/dictionary.db"),
        "file:/home/Zo%C3%AB%20Li/my%20data/dictionary.db?mode=ro"
    );
}

#[test]
fn windows_paths_are_normalized() {
    assert_eq!(
        dict_file_uri("C:\\Users\\x\\AppData\\dictionary.db"),
        "file:/C:/Users/x/AppData/dictionary.db?mode=ro"
    );
    assert_eq!(
        dict_file_uri("\\\\?\\C:\\Program Files\\app\\dictionary.db"),
        "file:/C:/Program%20Files/app/dictionary.db?mode=ro"
    );
    assert_eq!(
        dict_file_uri("\\\\?\\UNC\\server\\share\\dictionary.db"),
        "file://server/share/dictionary.db?mode=ro"
    );
}

#[test]
fn percent_encoding_round_trips() {
    let path = "/tmp/开心 #1?%.db";
    let uri = dict_file_uri(path);
    assert!(uri.is_ascii());
    assert_eq!(uri.matches('?').count(), 1);
    let body = uri.strip_prefix("file:").unwrap().strip_suffix("?mode=ro").unwrap();
    let mut bytes = Vec::new();
    let b = body.as_bytes();
    let mut i = 0;
    while i < b.len() {
        if b[i] == b'%' {
            bytes.push(u8::from_str_radix(std::str::from_utf8(&b[i + 1..i + 3]).unwrap(), 16).unwrap());
            i += 3;
        } else {
            bytes.push(b[i]);
            i += 1;
        }
    }
    assert_eq!(String::from_utf8(bytes).unwrap(), path);
}

#[test]
fn dict_copy_is_redone_unless_complete_and_current() {
    assert_eq!(DICT_COPY_VERSION, "1");
    assert!(dict_copy_up_to_date(true, &Some("1".to_string())));
    assert!(!dict_copy_up_to_date(false, &Some("1".to_string())));
    assert!(!dict_copy_up_to_date(true, &Some("0".to_string())));
    assert!(!dict_copy_up_to_date(true, &None));
}

#[test]
fn now_is_an_rfc3339_timestamp() {
    let t = now();
    assert!(chrono::DateTime::parse_from_rfc3339(&t).is_ok());
    assert!(t.ends_with("+00:00"));
    let tpos = t.find('T').unwrap();
    assert!(tpos >= 10);
    assert_eq!(&t[tpos + 3..tpos + 4], ":");
    assert_eq!(&t[tpos + 6..tpos + 7], ":");
    let frac = t.len() - 15 - tpos;
    assert!([0, 4, 7, 10].contains(&frac));
}
