use osm::css::{bytes_eq, Color, Rule, Selector, Stylesheet, Tag};

fn rule(min_zoom: u8, max_zoom: u8, color: Option<Color>) -> Rule {
    Rule {
        conds: Vec::new(),
        min_zoom,
        max_zoom,
        important: false,
        specificity: 0,
        color,
        width: None,
        z_index: None,
        visible: None,
    }
}

const RED: Color = Color { r: 255, g: 0, b: 0, a: 255 };
const BLUE: Color = Color { r: 0, g: 0, b: 255, a: 255 };

#[test]
fn cascade_last_match_wins_by_zoom() {
    // Rule A sets red for zooms 0-10, rule B blue for zooms 5-20.
    let sheet = Stylesheet {
        rules: vec![rule(0, 10, Some(RED)), rule(5, 20, Some(BLUE))],
        version: 1,
    };
    let tags: Vec<Tag> = Vec::new();
    // At zoom 7 both match and the later declaration wins.
    assert_eq!(sheet.resolve(&tags, 7).color, BLUE);
    // At zoom 2 only A matches.
    assert_eq!(sheet.resolve(&tags, 2).color, RED);
    // At zoom 15 only B matches.
    assert_eq!(sheet.resolve(&tags, 15).color, BLUE);
}

#[test]
fn cascade_important_wins_unconditionally() {
    let mut a = rule(0, 22, Some(RED));
    a.important = true;
    let b = rule(0, 22, Some(BLUE));
    let sheet = Stylesheet { rules: vec![a, b], version: 1 };
    let tags: Vec<Tag> = Vec::new();
    assert_eq!(sheet.resolve(&tags, 7).color, RED);
}

#[test]
fn cascade_higher_specificity_wins() {
    let mut a = rule(0, 22, Some(RED));
    a.specificity = 2;
    let mut b = rule(0, 22, Some(BLUE));
    b.specificity = 1;
    let sheet = Stylesheet { rules: vec![a, b], version: 1 };
    let tags: Vec<Tag> = Vec::new();
    assert_eq!(sheet.resolve(&tags, 7).color, RED);
}

#[test]
fn unmatched_object_gets_hidden_selector() {
    let mut a = rule(0, 22, Some(RED));
    a.conds = vec![Tag { key: b"kind".to_vec(), value: b"water".to_vec() }];
    let sheet = Stylesheet { rules: vec![a], version: 1 };
    let tags = vec![Tag { key: b"kind".to_vec(), value: b"road".to_vec() }];
    let s = sheet.resolve(&tags, 7);
    assert_eq!(s, Selector::hidden());
    assert!(!s.visible);
}

#[test]
fn tag_conditions_select_matching_objects() {
    let mut a = rule(0, 22, Some(RED));
    a.conds = vec![Tag { key: b"kind".to_vec(), value: b"water".to_vec() }];
    let sheet = Stylesheet { rules: vec![a], version: 1 };
    let tags = vec![
        Tag { key: b"name".to_vec(), value: b"lake".to_vec() },
        Tag { key: b"kind".to_vec(), value: b"water".to_vec() },
    ];
    let s = sheet.resolve(&tags, 7);
    assert!(s.visible);
    assert_eq!(s.color, RED);
}

#[test]
fn matched_defaults_apply_when_property_unset() {
    let a = rule(0, 22, None);
    let sheet = Stylesheet { rules: vec![a], version: 1 };
    let tags: Vec<Tag> = Vec::new();
    let s = sheet.resolve(&tags, 3);
    assert!(s.visible);
    assert_eq!(s.width, 256);
    assert_eq!(s.z_index, 0);
    assert_eq!(s.color, Color { r: 0, g: 0, b: 0, a: 255 });
}

#[test]
fn rule_outside_zoom_range_does_not_match() {
    let a = rule(3, 9, Some(RED));
    let sheet = Stylesheet { rules: vec![a], version: 1 };
    let tags: Vec<Tag> = Vec::new();
    assert!(!sheet.resolve(&tags, 2).visible);
    assert!(sheet.resolve(&tags, 3).visible);
    assert!(sheet.resolve(&tags, 9).visible);
    assert!(!sheet.resolve(&tags, 10).visible);
}

#[test]
fn byte_string_equality() {
    assert!(bytes_eq(&b"abc".to_vec(), &b"abc".to_vec()));
    assert!(!bytes_eq(&b"abc".to_vec(), &b"abd".to_vec()));
    assert!(!bytes_eq(&b"abc".to_vec(), &b"ab".to_vec()));
    assert!(bytes_eq(&Vec::new(), &Vec::new()));
}
