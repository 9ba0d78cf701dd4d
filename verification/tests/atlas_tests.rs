use xml_texture_atlas::atlas::{
    begin_load, find_texture_atlas, finish_load, parse_texture_atlas, AtlasError, PendingAtlas,
};
use xml_texture_atlas::events::Event;

fn start(name: &str, attrs: &[(&str, &str)]) -> Event {
    Event::Start {
        name: name.to_string(),
        attrs: attrs.iter().map(|(k, v)| (k.to_string(), v.to_string())).collect(),
    }
}

fn end(name: &str) -> Event {
    Event::End { name: name.to_string() }
}

#[test]
fn single_subtexture_example() {
    let bytes: Vec<u8> = br#"<TextureAtlas imagePath="sheet.png"><SubTexture name="blue_button00.png" x="0" y="0" width="190" height="49"/></TextureAtlas>"#.to_vec();
    let pending = begin_load(&bytes).unwrap();
    assert_eq!(pending.image_path, "sheet.png");
    let loaded = finish_load(pending, 190, 49).unwrap();
    assert_eq!(loaded.atlas.len(), 1);
    assert_eq!(loaded.atlas.get("blue_button00.png"), Some(0));
    assert_eq!(loaded.layout.len(), 1);
    let r = loaded.layout.get(0);
    assert_eq!(r.x, 0);
    assert_eq!(r.y, 0);
    assert_eq!(r.width, 190);
    assert_eq!(r.height, 49);
    assert_eq!(loaded.layout.width(), 190);
    assert_eq!(loaded.layout.height(), 49);
    assert!(loaded.warnings.is_empty());
}

#[test]
fn missing_image_path_fails() {
    let bytes: Vec<u8> = b"<TextureAtlas></TextureAtlas>".to_vec();
    match begin_load(&bytes) {
        Err(AtlasError::MissingAttribute(el, at)) => {
            assert_eq!(el, "TextureAtlas");
            assert_eq!(at, "imagePath");
        },
        other => panic!("expected a missing-attribute error, got {:?}", other.map(|p| p.image_path)),
    }
}

#[test]
fn no_children_yields_empty_mapping() {
    let bytes: Vec<u8> = br#"<TextureAtlas imagePath="a.png"></TextureAtlas>"#.to_vec();
    let pending = begin_load(&bytes).unwrap();
    assert_eq!(pending.image_path, "a.png");
    let loaded = finish_load(pending, 64, 32).unwrap();
    assert_eq!(loaded.atlas.len(), 0);
    assert_eq!(loaded.layout.len(), 0);
    assert!(loaded.warnings.is_empty());
}

#[test]
fn unknown_child_is_skipped_with_warning() {
    let bytes: Vec<u8> =
        br#"<TextureAtlas imagePath="a.png"><Decoration kind="frame"/></TextureAtlas>"#.to_vec();
    let pending = begin_load(&bytes).unwrap();
    let loaded = finish_load(pending, 64, 32).unwrap();
    assert_eq!(loaded.atlas.len(), 0);
    assert_eq!(loaded.layout.len(), 0);
    assert_eq!(loaded.warnings, vec!["Decoration".to_string()]);
}

#[test]
fn no_atlas_element_fails() {
    let bytes: Vec<u8> = b"<Other><Inner/></Other>".to_vec();
    match begin_load(&bytes) {
        Err(AtlasError::NoAtlas) => {},
        _ => panic!("expected the no-atlas-found error"),
    }
}

#[test]
fn nested_atlas_is_not_top_level() {
    let bytes: Vec<u8> = br#"<Wrap><TextureAtlas imagePath="x.png"/></Wrap>"#.to_vec();
    match begin_load(&bytes) {
        Err(AtlasError::NoAtlas) => {},
        _ => panic!("an atlas below the top level must not be picked up"),
    }
}

#[test]
fn duplicate_names_last_write_wins() {
    let bytes: Vec<u8> = br#"<TextureAtlas imagePath="s.png"><SubTexture name="a" x="0" y="0" width="10" height="10"/><SubTexture name="a" x="5" y="6" width="7" height="8"/></TextureAtlas>"#.to_vec();
    let pending = begin_load(&bytes).unwrap();
    let loaded = finish_load(pending, 100, 100).unwrap();
    // one entry for the duplicated name, pointing at the later rectangle
    assert_eq!(loaded.atlas.len(), 1);
    assert_eq!(loaded.atlas.get("a"), Some(1));
    // the earlier rectangle stays in the layout, unreachable by name
    assert_eq!(loaded.layout.len(), 2);
    let first = loaded.layout.get(0);
    assert_eq!((first.x, first.y, first.width, first.height), (0, 0, 10, 10));
    let second = loaded.layout.get(1);
    assert_eq!((second.x, second.y, second.width, second.height), (5, 6, 7, 8));
}

#[test]
fn missing_subtexture_name_fails() {
    let bytes: Vec<u8> =
        br#"<TextureAtlas imagePath="s.png"><SubTexture x="0" y="0" width="1" height="1"/></TextureAtlas>"#.to_vec();
    let pending = begin_load(&bytes).unwrap();
    match finish_load(pending, 8, 8) {
        Err(AtlasError::MissingAttribute(el, at)) => {
            assert_eq!(el, "SubTexture");
            assert_eq!(at, "name");
        },
        _ => panic!("expected a missing-attribute error"),
    }
}

#[test]
fn missing_coordinate_fails() {
    let bytes: Vec<u8> =
        br#"<TextureAtlas imagePath="s.png"><SubTexture name="a" y="0" width="1" height="1"/></TextureAtlas>"#.to_vec();
    let pending = begin_load(&bytes).unwrap();
    match finish_load(pending, 8, 8) {
        Err(AtlasError::MissingAttribute(el, at)) => {
            assert_eq!(el, "SubTexture");
            assert_eq!(at, "x");
        },
        _ => panic!("expected a missing-attribute error"),
    }
}

#[test]
fn non_numeric_coordinate_fails() {
    let bytes: Vec<u8> = br#"<TextureAtlas imagePath="s.png"><SubTexture name="a" x="abc" y="0" width="1" height="1"/></TextureAtlas>"#.to_vec();
    let pending = begin_load(&bytes).unwrap();
    match finish_load(pending, 8, 8) {
        Err(AtlasError::Number) => {},
        _ => panic!("expected a numeric parse error"),
    }
}

#[test]
fn malformed_markup_fails() {
    let bytes: Vec<u8> = b"this is not markup at all".to_vec();
    match begin_load(&bytes) {
        Err(AtlasError::Markup) => {},
        _ => panic!("expected a markup error"),
    }
}

#[test]
fn unclosed_atlas_element_fails() {
    let bytes: Vec<u8> = br#"<TextureAtlas imagePath="s.png"><SubTexture name="a" x="0" y="0" width="1" height="1"/>"#.to_vec();
    let pending = begin_load(&bytes).unwrap();
    match finish_load(pending, 8, 8) {
        Err(AtlasError::Markup) => {},
        _ => panic!("an unterminated atlas element must fail the load"),
    }
}

#[test]
fn find_on_plain_events() {
    let events = vec![
        Event::Other,
        start("TextureAtlas", &[("imagePath", "s.png")]),
        end("TextureAtlas"),
        Event::DocEnd,
    ];
    let found = find_texture_atlas(&events).unwrap();
    assert_eq!(found.image_path, "s.png");
    assert_eq!(found.next, 2);
}

#[test]
fn last_image_path_attribute_wins() {
    let events = vec![
        start("TextureAtlas", &[("imagePath", "first.png"), ("imagePath", "second.png")]),
        end("TextureAtlas"),
        Event::DocEnd,
    ];
    let found = find_texture_atlas(&events).unwrap();
    assert_eq!(found.image_path, "second.png");
}

#[test]
fn parse_on_plain_events() {
    let events = vec![
        start("TextureAtlas", &[("imagePath", "s.png")]),
        start("SubTexture", &[("name", "a"), ("x", "1"), ("y", "2"), ("width", "3"), ("height", "4")]),
        end("SubTexture"),
        end("TextureAtlas"),
        Event::DocEnd,
    ];
    let parsed = parse_texture_atlas(&events, 1, "TextureAtlas", 16, 16).unwrap();
    assert_eq!(parsed.next, 4);
    assert_eq!(parsed.names.get("a"), Some(0));
    let r = parsed.layout.get(0);
    assert_eq!((r.x, r.y, r.width, r.height), (1, 2, 3, 4));
    assert!(parsed.warnings.is_empty());
}

#[test]
fn document_end_inside_atlas_is_an_error() {
    let events = vec![start("TextureAtlas", &[("imagePath", "s.png")]), Event::DocEnd];
    match parse_texture_atlas(&events, 1, "TextureAtlas", 8, 8) {
        Err(AtlasError::Markup) => {},
        _ => panic!("the document ending inside the atlas element must fail"),
    }
}

#[test]
fn later_top_level_siblings_are_ignored() {
    let events = vec![
        start("TextureAtlas", &[("imagePath", "s.png")]),
        end("TextureAtlas"),
        start("Stray", &[]),
        end("Stray"),
        Event::DocEnd,
    ];
    let pending = PendingAtlas { events, next: 1, image_path: "s.png".to_string() };
    let loaded = finish_load(pending, 8, 8).unwrap();
    assert_eq!(loaded.atlas.len(), 0);
    assert!(loaded.warnings.is_empty());
}

#[test]
fn a_second_atlas_sibling_is_ignored() {
    let events = vec![
        start("TextureAtlas", &[("imagePath", "first.png")]),
        start("SubTexture", &[("name", "a"), ("x", "1"), ("y", "1"), ("width", "1"), ("height", "1")]),
        end("SubTexture"),
        end("TextureAtlas"),
        start("TextureAtlas", &[("imagePath", "second.png")]),
        end("TextureAtlas"),
        Event::DocEnd,
    ];
    let found = find_texture_atlas(&events).unwrap();
    assert_eq!(found.image_path, "first.png");
    let pending = PendingAtlas { events, next: found.next, image_path: found.image_path };
    let loaded = finish_load(pending, 8, 8).unwrap();
    assert_eq!(loaded.atlas.len(), 1);
    assert_eq!(loaded.atlas.get("a"), Some(0));
}

#[test]
fn foreign_end_tags_do_not_terminate_the_atlas() {
    let events = vec![
        start("TextureAtlas", &[("imagePath", "s.png")]),
        end("SomethingElse"),
        start("SubTexture", &[("name", "b"), ("x", "0"), ("y", "0"), ("width", "1"), ("height", "1")]),
        end("SubTexture"),
        end("TextureAtlas"),
        Event::DocEnd,
    ];
    let parsed = parse_texture_atlas(&events, 1, "TextureAtlas", 8, 8).unwrap();
    assert_eq!(parsed.names.get("b"), Some(0));
    assert_eq!(parsed.next, 5);
}
