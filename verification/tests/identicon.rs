use identicons_svg::{
    bit_array, bit_string_from_u16, build_grid, byte_array, extract_bits, generate, new_hash,
    render, Background, IdenticonError, IdenticonOptions,
};

fn gray_background() -> Background {
    Background { r: 0, color: String::from("rgb(240, 240, 240)") }
}

#[test]
fn round_trip_ff() {
    // "ff" -> byte [255] -> bit string "11111111" -> reversed -> all ones.
    assert_eq!(extract_bits("ff"), Ok(vec![1u16; 8]));
}

#[test]
fn end_to_end_zero_hash() {
    // "00" -> all-zero bits -> empty grid -> no fill rectangles.
    let bits = extract_bits("00").unwrap();
    assert_eq!(bits, vec![0u16; 8]);
    let doc = render(&bits, 2, 128, "#123456", None).unwrap();
    assert_eq!(doc.matches("<rect").count(), 0);
    let with_bg = render(&bits, 2, 128, "#123456", Some(&gray_background())).unwrap();
    assert_eq!(with_bg.matches("<rect").count(), 1);
}

#[test]
fn bit_count() {
    assert_eq!(extract_bits("abcd12").unwrap().len(), 24);
    assert_eq!(extract_bits("abc").unwrap().len(), 8);
    assert_eq!(extract_bits("").unwrap().len(), 0);
}

#[test]
fn odd_length_drops_leading_character() {
    // Byte pairing walks from the tail, so the unpaired leading character is
    // the one that is ignored.
    assert_eq!(extract_bits("abc"), extract_bits("bc"));
    assert_eq!(extract_bits("zab"), extract_bits("ab"));
}

#[test]
fn invalid_hash_rejected() {
    assert_eq!(extract_bits("zz"), Err(IdenticonError::InvalidHashFormat));
    assert_eq!(extract_bits("0g"), Err(IdenticonError::InvalidHashFormat));
    // A lone character is never read by the pairing scheme.
    assert_eq!(extract_bits("z"), Ok(vec![]));
}

#[test]
fn invalid_dimensions_rejected() {
    let bits = extract_bits("ff").unwrap();
    assert_eq!(
        render(&bits, 0, 128, "#000000", None),
        Err(IdenticonError::InvalidDimensions)
    );
    assert_eq!(
        render(&bits, 4, 0, "#000000", None),
        Err(IdenticonError::InvalidDimensions)
    );
}

#[test]
fn insufficient_bits_rejected() {
    let bits = extract_bits("ff").unwrap();
    // A side length of 10 reads up to index 94, far past 8 bits.
    assert_eq!(
        render(&bits, 10, 128, "#000000", None),
        Err(IdenticonError::InsufficientBitData)
    );
    // A side length of 2 reads up to index 2.
    assert_eq!(build_grid(&vec![1, 0], 2), Err(IdenticonError::InsufficientBitData));
    assert!(build_grid(&vec![1, 0, 1], 2).is_ok());
}

#[test]
fn deterministic_output() {
    let bits = extract_bits("a1b2c3d4e5f6").unwrap();
    let one = render(&bits, 5, 128, "#a97896", Some(&gray_background())).unwrap();
    let two = render(&bits, 5, 128, "#a97896", Some(&gray_background())).unwrap();
    assert_eq!(one, two);
    let opts = || IdenticonOptions {
        size: 5,
        color: String::from("#a97896"),
        width: 128,
        hash: String::from("a1b2c3d4e5f6"),
        background: gray_background(),
    };
    assert_eq!(generate(opts()), generate(opts()));
}

#[test]
fn grid_rows_are_symmetric() {
    let bits = extract_bits("0123456789abcdef").unwrap();
    let size = 5usize;
    let map = build_grid(&bits, size as u16).unwrap();
    assert_eq!(map.len(), size * size);
    for r in 0..size {
        for c in 0..size / 2 {
            assert_eq!(map[r * size + c], map[r * size + (size - 1 - c)]);
        }
        // The middle column of an odd-sized grid stays empty.
        assert_eq!(map[r * size + size / 2], 0);
    }
}

#[test]
fn golden_small_document() {
    let bits = extract_bits("ff").unwrap();
    let doc = render(&bits, 2, 6, "#000000", None).unwrap();
    let expected = "<?xml version = \"1.0\" encoding = \"UTF-8\"?>\n\
<svg width=\"6\" height=\"6\" viewBox=\"0 0 6 6\" preserveAspectRatio=\"xMinYMin\" xmlns=\"http://www.w3.org/2000/svg\">\n\
\t<rect x=\"1\" y=\"1\" width=\"2\" height=\"2\" fill=\"#000000\" />\n\
\t<rect x=\"3\" y=\"1\" width=\"2\" height=\"2\" fill=\"#000000\" />\n\
\t<rect x=\"1\" y=\"3\" width=\"2\" height=\"2\" fill=\"#000000\" />\n\
\t<rect x=\"3\" y=\"3\" width=\"2\" height=\"2\" fill=\"#000000\" />\n\
</svg>\n";
    assert_eq!(doc, expected);
}

#[test]
fn background_is_first_child() {
    let bits = extract_bits("ff").unwrap();
    let bg = Background { r: 3, color: String::from("#8615b9") };
    let doc = render(&bits, 2, 6, "#000000", Some(&bg)).unwrap();
    let first_rect = doc.find("<rect").unwrap();
    let line_end = first_rect + doc[first_rect..].find('\n').unwrap();
    let first_line = &doc[first_rect..line_end];
    assert!(first_line.contains("rx=\"3\""));
    assert!(first_line.contains("fill=\"#8615b9\""));
    assert_eq!(doc.matches("<rect").count(), 5);
    // All four fill rectangles follow the background rectangle.
    assert_eq!(doc[line_end..].matches("fill=\"#000000\"").count(), 4);
}

#[test]
fn attribute_values_are_escaped() {
    let bits = extract_bits("ff").unwrap();
    let doc = render(&bits, 2, 6, "a&b", None).unwrap();
    assert!(doc.contains("fill=\"a&amp;b\""));
    assert!(!doc.contains("fill=\"a&b\""));
}

#[test]
fn cell_count_bound() {
    let bits = extract_bits("a1b2c3d4e5f6a7b8").unwrap();
    let size = 7u16;
    let doc = render(&bits, size, 128, "#000000", None).unwrap();
    assert!(doc.matches("<rect").count() <= (size * size) as usize);
}

#[test]
fn byte_array_reads_groups_from_the_tail() {
    assert_eq!(byte_array("0a1b"), Ok(vec![0x1b, 0x0a]));
    assert_eq!(byte_array("ff00"), Ok(vec![0x00, 0xff]));
    assert_eq!(byte_array(""), Ok(vec![]));
}

#[test]
fn bit_string_expands_the_low_byte() {
    assert_eq!(bit_string_from_u16(255), "11111111");
    assert_eq!(bit_string_from_u16(0), "00000000");
    assert_eq!(bit_string_from_u16(5), "00000101");
    // Only the low byte is printed.
    assert_eq!(bit_string_from_u16(256), "00000000");
}

#[test]
fn bit_array_concatenates_byte_expansions() {
    assert_eq!(
        bit_array(vec![2, 1]),
        vec![0, 0, 0, 0, 0, 0, 1, 0, 0, 0, 0, 0, 0, 0, 0, 1]
    );
    assert_eq!(bit_array(vec![]), vec![]);
}

#[test]
fn new_hash_is_valid_hex() {
    let h = new_hash(5);
    assert_eq!(h.len(), 10);
    assert!(h.chars().all(|c| c.is_ascii_hexdigit()));
    assert!(extract_bits(&h).is_ok());
}

#[test]
fn default_options_are_usable() {
    let opts = IdenticonOptions::default();
    assert!((4..8).contains(&opts.size));
    assert_eq!(opts.width, 128);
    assert_eq!(opts.hash.len(), 30);
    assert!(opts.color.starts_with('#'));
    assert_eq!(opts.background.r, 0);
    assert_eq!(opts.background.color, "rgb(240, 240, 240)");
    let doc = generate(opts);
    assert!(doc.starts_with("<?xml"));
    assert!(doc.contains("<svg"));
}
