use tablestream::LabelMeta;
use tablestream::Labels;

#[test]
fn label_meta_defaults_and_overrides() {
    let m = LabelMeta::new("time");
    assert_eq!(m.name(), "time");
    assert_eq!(m.width(), 9);
    let wide = LabelMeta::new("label").with_width(30);
    assert_eq!(wide.name(), "label");
    assert_eq!(wide.width(), 30);
}

#[test]
fn unit_labels_are_empty() {
    let meta = <() as Labels>::meta();
    assert_eq!(meta.len(), 0);
    assert_eq!(().values().len(), 0);
}

#[test]
fn str_labels_have_one_entry() {
    let meta = <str as Labels>::meta();
    assert_eq!(meta.len(), 1);
    assert_eq!(meta[0].name(), "label");
    assert_eq!(meta[0].width(), 30);
    let values = "sum".values();
    assert_eq!(values, vec!["sum".to_string()]);
}
