use cerebrust::device::DeviceConfig;

#[test]
fn default_config() {
    let c = DeviceConfig::default();
    assert_eq!(c.adapter, None);
    assert_eq!(c.target_name, "MyndBand");
    assert_eq!(c.channel, 5);
}

#[test]
fn builders_set_fields() {
    let c = DeviceConfig::default()
        .with_adapter("hci0".to_string())
        .with_name("Mindwave".to_string())
        .with_channel(3);
    assert_eq!(c.adapter, Some("hci0".to_string()));
    assert_eq!(c.target_name, "Mindwave");
    assert_eq!(c.channel, 3);
}

#[test]
fn target_name_match() {
    let c = DeviceConfig::default();
    assert!(c.is_target(&Some("MyndBand".to_string())));
    assert!(!c.is_target(&Some("Other".to_string())));
    assert!(!c.is_target(&None));
}
