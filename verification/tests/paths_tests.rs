use persist_props::paths::{entry_path, temp_template, PERSIST_PROP, PERSIST_PROP_DIR};
use persist_props::store::{check_proto, target_mode, Mode, Target};

#[test]
fn the_well_known_paths() {
    assert_eq!(PERSIST_PROP_DIR, "/data/property");
    assert_eq!(PERSIST_PROP, "/data/property/persistent_properties");
}

#[test]
fn a_flat_file_is_named_after_its_property() {
    assert_eq!(entry_path("ro.test"), "/data/property/ro.test");
    assert_eq!(entry_path("persist.sys.locale"), "/data/property/persist.sys.locale");
    assert_eq!(entry_path(""), "/data/property/");
}

#[test]
fn a_temporary_file_stands_beside_what_it_replaces() {
    assert_eq!(temp_template(Mode::Container), "/data/property/persistent_properties.XXXXXX");
    assert_eq!(temp_template(Mode::FlatFile), "/data/property/.prop.XXXXXX");
}

#[test]
fn the_container_alone_selects_the_layout() {
    assert_eq!(check_proto(true), Mode::Container);
    assert_eq!(check_proto(false), Mode::FlatFile);
}

#[test]
fn a_target_belongs_to_one_layout() {
    assert_eq!(target_mode(&Target::Container), Mode::Container);
    assert_eq!(target_mode(&Target::Entry { name: "a".to_string() }), Mode::FlatFile);
}
