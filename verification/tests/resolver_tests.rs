use xml_texture_atlas::atlas::XMLTextureAtlas;
use xml_texture_atlas::names::NameMap;
use xml_texture_atlas::numbers::parse_u32;
use xml_texture_atlas::resolver::{resolve_index, update_atlas, XMLTextureAtlasComponent};

fn ready_atlas() -> XMLTextureAtlas {
    let mut names = NameMap::new();
    names.insert("a".to_string(), 3);
    XMLTextureAtlas::new(names)
}

#[test]
fn resolver_writes_mapped_index_and_is_idempotent() {
    let atlas = ready_atlas();
    let mut index: usize = 0;
    assert!(resolve_index(&atlas, "a", &mut index));
    assert_eq!(index, 3);
    assert!(resolve_index(&atlas, "a", &mut index));
    assert_eq!(index, 3);
}

#[test]
fn resolver_leaves_missing_name_unchanged() {
    let atlas = ready_atlas();
    let mut sprites = vec![
        XMLTextureAtlasComponent { name: "missing".to_string(), index: 7 },
        XMLTextureAtlasComponent { name: "a".to_string(), index: 0 },
    ];
    // two ticks: the missing name never changes its entity, and the
    // sibling entity is still processed each time
    for _ in 0..2 {
        let missing = update_atlas(Some(&atlas), &mut sprites);
        assert_eq!(missing, vec!["missing".to_string()]);
        assert_eq!(sprites[0].index, 7);
        assert_eq!(sprites[1].index, 3);
    }
}

#[test]
fn resolver_skips_unloaded_atlas() {
    let mut sprites = vec![XMLTextureAtlasComponent { name: "a".to_string(), index: 9 }];
    let missing = update_atlas(None, &mut sprites);
    assert!(missing.is_empty());
    assert_eq!(sprites[0].index, 9);
}

#[test]
fn name_map_overwrites_and_counts() {
    let mut names = NameMap::new();
    names.insert("x".to_string(), 0);
    names.insert("y".to_string(), 1);
    names.insert("x".to_string(), 2);
    assert_eq!(names.len(), 2);
    assert_eq!(names.get("x"), Some(2));
    assert_eq!(names.get("y"), Some(1));
    assert_eq!(names.get("z"), None);
}

#[test]
fn parse_u32_accepts_plain_decimals() {
    assert_eq!(parse_u32("0"), Some(0));
    assert_eq!(parse_u32("42"), Some(42));
    assert_eq!(parse_u32("+7"), Some(7));
    assert_eq!(parse_u32("4294967295"), Some(u32::MAX));
}

#[test]
fn parse_u32_rejects_everything_else() {
    assert_eq!(parse_u32(""), None);
    assert_eq!(parse_u32("+"), None);
    assert_eq!(parse_u32("-1"), None);
    assert_eq!(parse_u32(" 1"), None);
    assert_eq!(parse_u32("12a"), None);
    assert_eq!(parse_u32("4294967296"), None);
    assert_eq!(parse_u32("99999999999999999999"), None);
}
