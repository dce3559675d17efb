use std::io::Write;

use watermarker::vrchat::parse_png;

const PNG_SIG: &[u8] = b"\x89PNG\r\n\x1a\n";

fn chunk(kind: &[u8; 4], data: &[u8]) -> Vec<u8> {
    let mut out = Vec::new();
    out.extend_from_slice(&(data.len() as u32).to_be_bytes());
    out.extend_from_slice(kind);
    out.extend_from_slice(data);
    // CRC value is irrelevant to the reader; zero it.
    out.extend_from_slice(&[0, 0, 0, 0]);
    out
}

/// Build a minimal valid PNG carrying the given `(keyword, text)` iTXt chunks.
fn png_with_itxt(chunks: &[(&str, &str)]) -> Vec<u8> {
    let mut png = Vec::new();
    png.write_all(PNG_SIG).unwrap();
    png.extend(chunk(b"IHDR", &[0; 13]));
    for (kw, text) in chunks {
        let mut data = Vec::new();
        data.extend_from_slice(kw.as_bytes());
        data.push(0);
        data.push(0);
        data.push(0);
        data.push(0);
        data.push(0);
        data.extend_from_slice(text.as_bytes());
        png.extend(chunk(b"iTXt", &data));
    }
    png.extend(chunk(b"IEND", &[]));
    png
}

#[test]
fn parses_line_format() {
    let line = "lfs|2|author:usr_abc,Alice|world:wrld_xyz,12345~private,Cool World|pos:1,2,3";
    let png = png_with_itxt(&[("Description", line)]);
    let m = parse_png(&png, "shot.png").unwrap();
    assert_eq!(m.world_name.as_deref(), Some("Cool World"));
    assert_eq!(m.author_name.as_deref(), Some("Alice"));
    assert_eq!(m.source_format, "line");
}

#[test]
fn world_name_with_comma_is_kept_whole() {
    let line = "screenshotmanager|1|world:wrld_xyz,inst,Hello, World";
    let png = png_with_itxt(&[("Description", line)]);
    let m = parse_png(&png, "x.png").unwrap();
    assert_eq!(m.world_name.as_deref(), Some("Hello, World"));
}

#[test]
fn parses_vrcx_json() {
    let json = r#"{"world":{"id":"wrld_x","name":"Json World"},"author":{"id":"usr_y","displayName":"Bob"}}"#;
    let png = png_with_itxt(&[("Description", json)]);
    let m = parse_png(&png, "VRChat_2025-01-02_15-04-05.123_1920x1080.png").unwrap();
    assert_eq!(m.world_name.as_deref(), Some("Json World"));
    assert_eq!(m.author_name.as_deref(), Some("Bob"));
    assert_eq!(m.source_format, "json");
    assert_eq!(m.captured_at.as_deref(), Some("2025-01-02 15:04:05"));
}

#[test]
fn json_preferred_over_xmp_but_xmp_supplies_date() {
    let json = r#"{"world":{"name":"Json World"},"author":{"displayName":"Bob"}}"#;
    let xmp = r#"<x:xmpmeta xmlns:vrc="http://ns.vrchat.com/vrc/1.0/" xmlns:xmp="http://ns.adobe.com/xap/1.0/">
            <vrc:WorldDisplayName>Xmp World</vrc:WorldDisplayName>
            <xmp:CreateDate>2024-12-31T23:59:58.500+09:00</xmp:CreateDate></x:xmpmeta>"#;
    let png = png_with_itxt(&[("Description", json), ("XML:com.adobe.xmp", xmp)]);
    let m = parse_png(&png, "no-date.png").unwrap();
    assert_eq!(m.world_name.as_deref(), Some("Json World"));
    assert_eq!(m.captured_at.as_deref(), Some("2024-12-31 23:59:58"));
}

#[test]
fn parses_xmp_attribute_form() {
    let xmp = r#"<x:xmpmeta><rdf:Description vrc:WorldDisplayName="Attr World" xmp:Author="Carol"
            xmp:CreateDate="2025-06-01T08:00:00Z"/></x:xmpmeta>"#;
    let png = png_with_itxt(&[("XML:com.adobe.xmp", xmp)]);
    let m = parse_png(&png, "x.png").unwrap();
    assert_eq!(m.world_name.as_deref(), Some("Attr World"));
    assert_eq!(m.author_name.as_deref(), Some("Carol"));
    assert_eq!(m.captured_at.as_deref(), Some("2025-06-01 08:00:00"));
    assert_eq!(m.source_format, "xmp");
}

#[test]
fn non_vrchat_png_returns_none() {
    let png = png_with_itxt(&[("Comment", "just a regular screenshot")]);
    assert!(parse_png(&png, "photo.png").is_none());
}

#[test]
fn non_png_returns_none() {
    assert!(parse_png(b"not a png at all", "x.png").is_none());
}

#[test]
fn xml_entities_are_decoded() {
    let xmp = r#"<x:xmpmeta><vrc:WorldDisplayName>Tom &amp; Jerry&apos;s</vrc:WorldDisplayName></x:xmpmeta>"#;
    let png = png_with_itxt(&[("XML:com.adobe.xmp", xmp)]);
    let m = parse_png(&png, "x.png").unwrap();
    assert_eq!(m.world_name.as_deref(), Some("Tom & Jerry's"));
}

#[test]
fn longer_names_ending_in_author_are_passed_over() {
    let xmp = "<x:xmpmeta><x:NotAuthor>Z</x:NotAuthor><x:Author>Bob</x:Author></x:xmpmeta>";
    let png = png_with_itxt(&[("XML:com.adobe.xmp", xmp)]);
    let m = parse_png(&png, "x.png").unwrap();
    assert_eq!(m.author_name.as_deref(), Some("Bob"));
}

#[test]
fn negative_zone_offset_is_dropped() {
    let xmp = r#"<x:xmpmeta><rdf:Description xmp:Author="Dana"
            xmp:CreateDate="2025-06-01T08:00:00-07:00"/></x:xmpmeta>"#;
    let png = png_with_itxt(&[("XML:com.adobe.xmp", xmp)]);
    let m = parse_png(&png, "x.png").unwrap();
    assert_eq!(m.captured_at.as_deref(), Some("2025-06-01 08:00:00"));
}

#[test]
fn entities_are_decoded_once() {
    let xmp = "<x:xmpmeta><x:Author>&amp;lt;Tom &amp; Jerry&apos;s&amp;gt;</x:Author></x:xmpmeta>";
    let png = png_with_itxt(&[("XML:com.adobe.xmp", xmp)]);
    let m = parse_png(&png, "x.png").unwrap();
    assert_eq!(m.author_name.as_deref(), Some("&lt;Tom & Jerry's&gt;"));
}
