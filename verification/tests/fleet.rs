use wharf_core::fleet::{add_yacht, parse_adapter, remove_yacht, Adapter, Fleet, FleetError};

#[test]
fn test_parse_adapter_case_insensitive() {
    assert_eq!(parse_adapter("WordPress"), Some(Adapter::WordPress));
    assert_eq!(parse_adapter("drupal"), Some(Adapter::Drupal));
    assert_eq!(parse_adapter("MOODLE"), Some(Adapter::Moodle));
    assert_eq!(parse_adapter("joomla"), Some(Adapter::Joomla));
    assert_eq!(parse_adapter("custom"), Some(Adapter::Custom));
    assert_eq!(parse_adapter("rails"), None);
}

#[test]
fn test_add_and_remove_yacht() {
    let mut fleet = Fleet::new();
    assert!(add_yacht(&mut fleet, "alpha", "10.0.0.1", "alpha.example", "wordpress").is_ok());
    assert_eq!(fleet.yachts.len(), 1);
    assert_eq!(fleet.yachts[0].name, "alpha");
    assert_eq!(fleet.yachts[0].adapter, Adapter::WordPress);
    assert!(fleet.yachts[0].enabled);

    // a second yacht under the same name is refused
    assert_eq!(
        add_yacht(&mut fleet, "alpha", "10.0.0.2", "alpha2.example", "drupal"),
        Err(FleetError::YachtExists)
    );
    assert_eq!(fleet.yachts.len(), 1);

    // an unknown adapter kind is refused
    assert_eq!(
        add_yacht(&mut fleet, "beta", "10.0.0.2", "beta.example", "rails"),
        Err(FleetError::UnknownAdapter)
    );
    assert_eq!(fleet.yachts.len(), 1);

    assert_eq!(remove_yacht(&mut fleet, "missing"), Err(FleetError::YachtNotFound));
    assert!(remove_yacht(&mut fleet, "alpha").is_ok());
    assert!(fleet.yachts.is_empty());
}

#[test]
fn test_get_yacht() {
    let mut fleet = Fleet::new();
    add_yacht(&mut fleet, "alpha", "10.0.0.1", "alpha.example", "custom").unwrap();
    assert!(fleet.get_yacht("alpha").is_some());
    assert!(fleet.get_yacht("beta").is_none());
    assert_eq!(fleet.get_yacht("alpha").unwrap().ssh_port, 22);
}
