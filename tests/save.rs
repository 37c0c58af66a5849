use routefinder::error::SimpleStringError;
use routefinder::save::{read as read_save, HadesSaveV16, UncompressedSize};

fn push_str(v: &mut Vec<u8>, s: &str) {
    routefinder::write::u32(v, s.len() as u32);
    routefinder::write::bytes(v, s.as_bytes());
}

fn sample(version: u32) -> Vec<u8> {
    let mut v = Vec::new();
    routefinder::write::bytes(&mut v, b"SGB1");
    routefinder::write::bytes(&mut v, &[0, 0, 0, 0]);
    routefinder::write::u32(&mut v, version);
    routefinder::write::u64(&mut v, 1_700_000_000);
    push_str(&mut v, "Tartarus");
    routefinder::write::u32(&mut v, 12);
    routefinder::write::u32(&mut v, 300);
    routefinder::write::u32(&mut v, 8);
    routefinder::write::byte(&mut v, 1);
    routefinder::write::byte(&mut v, 0);
    routefinder::write::u32(&mut v, 2);
    push_str(&mut v, "CurrentRun");
    push_str(&mut v, "GameState");
    push_str(&mut v, "RoomOpening");
    push_str(&mut v, "A_Combat01");
    routefinder::write::u32(&mut v, 3);
    routefinder::write::bytes(&mut v, &[7, 8, 9]);
    v
}

#[test]
fn reads_a_well_formed_save() {
    let data = sample(16);
    let mut s: &[u8] = &data[..];
    let save: HadesSaveV16 = read_save(&mut s, "save".to_string()).unwrap();
    assert_eq!(save.version, 16);
    assert_eq!(save.timestamp, 1_700_000_000);
    assert_eq!(save.location, "Tartarus");
    assert_eq!(save.runs, 12);
    assert_eq!(save.active_meta_points, 300);
    assert_eq!(save.active_shrine_points, 8);
    assert!(save.god_mode_enabled);
    assert!(!save.hell_mode_enabled);
    assert_eq!(save.lua_keys, vec!["CurrentRun".to_string(), "GameState".to_string()]);
    assert_eq!(save.current_map_name, "RoomOpening");
    assert_eq!(save.start_next_map, "A_Combat01");
    assert_eq!(save.lua_state_lz4, vec![7, 8, 9]);
    assert!(s.is_empty());
}

#[test]
fn refuses_other_signature_and_version() {
    let mut data = sample(16);
    data[0] = b'X';
    let mut s: &[u8] = &data[..];
    assert_eq!(read_save(&mut s, "save".to_string()).err(), Some("Not a Hades save file".to_string()));
    let data = sample(15);
    let mut s: &[u8] = &data[..];
    assert_eq!(read_save(&mut s, "save".to_string()).err(), Some("unknown version".to_string()));
}

#[test]
fn refuses_truncated_and_invalid_text() {
    let data = sample(16);
    for cut in [0usize, 3, 10, 25, data.len() - 1] {
        let mut s: &[u8] = &data[..cut];
        assert!(read_save(&mut s, "save".to_string()).is_err());
    }
    let mut bad = sample(16);
    let at = 24; // first byte of the location text
    bad[at] = 0xFF;
    let mut s: &[u8] = &bad[..];
    assert!(read_save(&mut s, "save".to_string()).is_err());
}

#[test]
fn uncompressed_size_of_version_16() {
    assert_eq!(HadesSaveV16::uncompressed_size(), 9388032);
}

#[test]
fn simple_string_error_keeps_its_message() {
    let e = SimpleStringError::new("boom".to_string());
    assert_eq!(e.description(), "boom");
}
