use roomnet::document::{parse_document, split_document, split_lines, trim_chars, DocItem};
use roomnet::net::{infer_dimensions, parse_room, NetError};

fn chars(s: &str) -> Vec<char> {
    s.chars().collect()
}

fn grid(rows: &[&str]) -> Vec<Vec<char>> {
    rows.iter().map(|r| r.chars().collect()).collect()
}

#[test]
fn infer_dimensions_of_consistent_net() {
    // A 4 x 1 x 2 box: one top row of width 4, two middle rows of width
    // 2*4 + 2*1 = 10, one bottom row of width 4; 28 characters in all, and
    // 2*(4*1 + 4*2 + 1*2) == 28.
    let g = grid(&["AAAA", "+   bbb  b", "bb  b    b", "----"]);
    let dims = infer_dimensions(&g).unwrap();
    assert_eq!(dims.width, 4);
    assert_eq!(dims.depth, 1);
    assert_eq!(dims.height, 2);
}

#[test]
fn infer_dimensions_checksum_mismatch() {
    // Six rows of width 4 infer depth 1 and height 4, but then the checksum
    // asks for 2*(4 + 16 + 4) = 48 characters and only 24 are there.
    let g = grid(&["AAAA", "+---", "|bb|", "|bb|", "+---", "AAAA"]);
    assert_eq!(infer_dimensions(&g), Err(NetError::ChecksumMismatch));
}

#[test]
fn infer_dimensions_missing_border() {
    let g = grid(&["abc", "def", "ghi"]);
    assert_eq!(infer_dimensions(&g), Err(NetError::MissingBorder));
}

#[test]
fn infer_dimensions_empty_grid() {
    let g: Vec<Vec<char>> = Vec::new();
    assert_eq!(infer_dimensions(&g), Err(NetError::EmptyGrid));
}

#[test]
fn infer_dimensions_too_few_lines() {
    // The first border row sits at index 2, asking for two depth bands of
    // two rows each in a grid of only three rows.
    let g = grid(&["ab", "xx", "+y"]);
    assert_eq!(infer_dimensions(&g), Err(NetError::TooFewLines));
}

#[test]
fn parse_room_ragged_grid() {
    // Checksum 2*(2*1 + 2*1 + 1*1) = 10 is met by 2 + 7 + 1 characters, but
    // the bottom row is too short for its band of width 2.
    let g = grid(&["ab", "+cdefgh", "i"]);
    assert_eq!(parse_room(&g).unwrap_err(), NetError::RaggedGrid);
}

#[test]
fn parse_room_faces_of_example_net() {
    let g = grid(&["AAAA", "+   bbb  b", "bb  b    b", "----"]);
    let room = parse_room(&g).unwrap();
    assert_eq!((room.width, room.depth, room.height), (4, 1, 2));
    assert_eq!(
        room.top,
        vec![(0, 0, 'A'), (1, 0, 'A'), (2, 0, 'A'), (3, 0, 'A')]
    );
    assert_eq!(room.back, vec![(0, 1, 'b'), (1, 1, 'b')]);
    assert_eq!(room.right, vec![(0, 0, 'b'), (0, 1, 'b')]);
    assert_eq!(room.front, vec![(0, 0, 'b'), (1, 0, 'b')]);
    assert_eq!(room.left, vec![(0, 0, 'b'), (0, 1, 'b')]);
    assert_eq!(room.floor, Vec::new());
}

#[test]
fn parse_room_accepts_flat_net() {
    // Height zero is legal: two rows of width 2, checksum 2*(2*1) = 4.
    let g = grid(&["ab", "+c"]);
    let room = parse_room(&g).unwrap();
    assert_eq!((room.width, room.depth, room.height), (2, 1, 0));
    assert_eq!(room.top, vec![(0, 0, 'a'), (1, 0, 'b')]);
    assert_eq!(room.back, Vec::new());
    assert_eq!(room.floor, vec![(1, 0, 'c')]);
}

#[test]
fn split_document_names_and_bodies() {
    let text = chars("# Hall \nline one\nline two\n#B\na note\n##\n   \n# End\nbody");
    let sections = split_document(&text);
    assert_eq!(sections.len(), 3);
    assert_eq!(sections[0].name.iter().collect::<String>(), "Hall");
    assert_eq!(
        sections[0].body.iter().collect::<String>(),
        "line one\nline two"
    );
    assert_eq!(sections[1].name.iter().collect::<String>(), "B");
    assert_eq!(sections[1].body.iter().collect::<String>(), "a note");
    assert_eq!(sections[2].name.iter().collect::<String>(), "End");
    assert_eq!(sections[2].body.iter().collect::<String>(), "body");
}

#[test]
fn split_document_name_only_section() {
    let text = chars("# OnlyName ");
    let sections = split_document(&text);
    assert_eq!(sections.len(), 1);
    assert_eq!(sections[0].name.iter().collect::<String>(), "OnlyName");
    assert_eq!(sections[0].body.len(), 0);
}

#[test]
fn trim_chars_strips_surrounding_blanks() {
    assert_eq!(trim_chars(&chars(" \t hi there \r\n")), chars("hi there"));
    assert_eq!(trim_chars(&chars("   ")), Vec::new());
    assert_eq!(trim_chars(&chars("x")), chars("x"));
}

#[test]
fn split_lines_strips_carriage_returns() {
    let lines = split_lines(&chars("ab\r\ncd\ne"));
    assert_eq!(lines.len(), 3);
    assert_eq!(lines[0], chars("ab"));
    assert_eq!(lines[1], chars("cd"));
    assert_eq!(lines[2], chars("e"));
    assert_eq!(split_lines(&Vec::new()).len(), 0);
}

#[test]
fn parse_document_end_to_end() {
    // One description section and one room: the room is the 4 x 1 x 2 box
    // whose middle-band faces each hold the letter `b` twice.
    let text = chars("#A\na short note\n# Room One\nAAAA\n+   bbb  b\nbb  b    b\n----\n");
    let items = parse_document(&text).unwrap();
    assert_eq!(items.len(), 2);
    match &items[0] {
        DocItem::Description { label, text } => {
            assert_eq!(*label, 'A');
            assert_eq!(text.iter().collect::<String>(), "a short note");
        }
        DocItem::Room(_) => panic!("first section is a description"),
    }
    match &items[1] {
        DocItem::Room(room) => {
            assert_eq!((room.width, room.depth, room.height), (4, 1, 2));
            assert_eq!(room.back, vec![(0, 1, 'b'), (1, 1, 'b')]);
            assert_eq!(room.right, vec![(0, 0, 'b'), (0, 1, 'b')]);
            assert_eq!(room.front, vec![(0, 0, 'b'), (1, 0, 'b')]);
            assert_eq!(room.left, vec![(0, 0, 'b'), (0, 1, 'b')]);
        }
        DocItem::Description { .. } => panic!("second section is a room"),
    }
}

#[test]
fn parse_document_rejects_bad_room() {
    let text = chars("# Broken\nabc\ndef\n");
    assert_eq!(parse_document(&text).unwrap_err(), NetError::MissingBorder);
}

#[test]
fn parse_document_empty_room_body() {
    let text = chars("# Empty Room\n");
    assert_eq!(parse_document(&text).unwrap_err(), NetError::EmptyGrid);
}

#[test]
fn net_round_trip_from_chosen_dimensions() {
    // Build a placeholder net for chosen dimensions and run it back through
    // inference: the same dimensions come out, for several shapes.
    for &(w, d, h) in &[(4usize, 1usize, 2usize), (3, 2, 5), (1, 1, 1), (0, 2, 3)] {
        let mut rows: Vec<Vec<char>> = Vec::new();
        for _ in 0..d {
            rows.push(vec!['A'; w]);
        }
        for _ in 0..h {
            rows.push(vec!['+'; 2 * w + 2 * d]);
        }
        for _ in 0..d {
            rows.push(vec!['A'; w]);
        }
        let total: usize = rows.iter().map(|r| r.len()).sum();
        assert_eq!(2 * (w * d + w * h + d * h), total);
        let dims = infer_dimensions(&rows).unwrap();
        assert_eq!((dims.width, dims.depth, dims.height), (w, d, h));
    }
}
