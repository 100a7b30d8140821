use engine::geometry::ChunkLocation;
use engine::save_format::{file_name_to_loc, loc_to_file_name, parse_chunk_file_name};

fn loc(x: i32, y: i32, z: i32) -> ChunkLocation {
    ChunkLocation { x, y, z }
}

#[test]
fn file_names_are_written_in_decimal() {
    assert_eq!(loc_to_file_name(&loc(1, -2, 30)), "1_-2_30.cff");
    assert_eq!(loc_to_file_name(&loc(0, 0, 0)), "0_0_0.cff");
    assert_eq!(loc_to_file_name(&loc(i32::MIN, i32::MAX, -10)), "-2147483648_2147483647_-10.cff");
}

#[test]
fn file_names_read_back() {
    for l in [loc(1, -2, 30), loc(0, 0, 0), loc(i32::MIN, i32::MAX, 7), loc(-1, -1, -1)] {
        let name = loc_to_file_name(&l);
        assert_eq!(parse_chunk_file_name(&name), Some(l));
        assert_eq!(file_name_to_loc(&name), Some(l));
    }
}

#[test]
fn written_names_are_read_back_as_save_files() {
    for l in [loc(0, 0, 0), loc(-4, 17, i32::MIN), loc(i32::MAX, -1, 9)] {
        assert_eq!(file_name_to_loc(&loc_to_file_name(&l)), Some(l));
    }
    assert_eq!(file_name_to_loc("7_8.cff"), None);
}

#[test]
fn malformed_names_are_rejected() {
    assert_eq!(parse_chunk_file_name("1_2_3.txt"), None);
    assert_eq!(parse_chunk_file_name("1_2_3"), None);
    assert_eq!(parse_chunk_file_name("1_2.cff"), None);
    assert_eq!(parse_chunk_file_name("1_2_3_4.cff"), None);
    assert_eq!(parse_chunk_file_name("1_x_3.cff"), None);
    assert_eq!(parse_chunk_file_name("1__3.cff"), None);
    assert_eq!(parse_chunk_file_name("1_2_2147483648.cff"), None);
    assert_eq!(parse_chunk_file_name("-_2_3.cff"), None);
    assert_eq!(parse_chunk_file_name(".cff"), None);
    assert_eq!(parse_chunk_file_name("1_2_3.cff.bak"), None);
    assert_eq!(parse_chunk_file_name(""), None);
}

#[test]
fn non_canonical_names_parse_like_str_parse() {
    assert_eq!(parse_chunk_file_name("+1_02_-0.cff"), Some(loc(1, 2, 0)));
    assert_eq!(parse_chunk_file_name("1.5_2_3.cff"), None);
    assert_eq!(parse_chunk_file_name("-2147483648_0_0.cff"), Some(loc(i32::MIN, 0, 0)));
    assert_ne!(loc_to_file_name(&loc(1, 2, 0)), "+1_02_-0.cff");
}
