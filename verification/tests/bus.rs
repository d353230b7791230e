use symbiosis::bus::{
    add_target_action, delete_device_text, find_toh_i2c_bus, new_device_text, AddTarget, I2cBus,
    I2cTarget,
};

fn names(items: &[&str]) -> Vec<String> {
    items.iter().map(|s| s.to_string()).collect()
}

#[test]
fn finds_first_bus_directory() {
    assert_eq!(find_toh_i2c_bus(&names(&["driver", "i2c-3", "i2c-5"])), Some(3));
    assert_eq!(find_toh_i2c_bus(&names(&["i2c-x", "i2c-256", "i2c-", "i2c-12"])), Some(12));
    assert_eq!(find_toh_i2c_bus(&names(&["i2c-+7"])), Some(7));
    assert_eq!(find_toh_i2c_bus(&names(&["3-0050", "power"])), None);
    assert_eq!(find_toh_i2c_bus(&Vec::new()), None);
}

#[test]
fn toh_bus_attributes() {
    let bus = I2cBus::toh_bus(&names(&["i2c-3"])).unwrap();
    assert_eq!(bus.bus, 3);
    assert_eq!(bus.new_device.path, "/sys/devices/platform/soc/11d00000.i2c/i2c-3/new_device");
    assert_eq!(
        bus.delete_device.path,
        "/sys/devices/platform/soc/11d00000.i2c/i2c-3/delete_device"
    );
    assert!(I2cBus::toh_bus(&names(&["foo"])).is_none());
}

#[test]
fn target_directory() {
    let bus = I2cBus::for_bus(3);
    assert_eq!(bus.target_dir(0x50), "/sys/devices/platform/soc/11d00000.i2c/i2c-3/3-0050");
    let bus = I2cBus::for_bus(12);
    assert_eq!(bus.target_dir(0xab), "/sys/devices/platform/soc/11d00000.i2c/i2c-12/12-00ab");
}

#[test]
fn target_addresses_of_bus() {
    let bus = I2cBus::for_bus(3);
    let dirs = names(&["3-0050", "i2c-3", "3-0051", "4-0052", "3-zz", "30-0053", "3-0100"]);
    assert_eq!(bus.target_addresses(&dirs), vec![0x50, 0x51]);
}

#[test]
fn target_directory_gives_back_address() {
    let bus = I2cBus::for_bus(7);
    for address in [0u8, 0x50, 0x5f, 0xff] {
        let dir = bus.target_dir(address);
        let name = dir.rsplit('/').next().unwrap().to_string();
        assert_eq!(bus.target_addresses(&vec![name]), vec![address]);
    }
}

#[test]
fn device_attribute_lines() {
    assert_eq!(new_device_text("none", 0x50), "none 0x50\n");
    assert_eq!(new_device_text("at24", 0x0a), "at24 0x0a\n");
    assert_eq!(delete_device_text(0x5a), "0x5a\n");
}

#[test]
fn adding_targets() {
    assert_eq!(add_target_action("none", None), AddTarget::Add);
    assert_eq!(add_target_action("none", Some("none\n")), AddTarget::Present);
    assert_eq!(add_target_action("none", Some("at24\n")), AddTarget::Replace);
}

#[test]
fn removing_target() {
    let bus = I2cBus::for_bus(2);
    let target = I2cTarget::new(&bus, 0x51);
    let (attr, line) = target.remove();
    assert_eq!(attr.path, "/sys/devices/platform/soc/11d00000.i2c/i2c-2/delete_device");
    assert_eq!(line, "0x51\n");
}

#[test]
fn i2c_dev_path_of_bus() {
    assert_eq!(I2cBus::for_bus(3).i2c_dev_path(), "/dev/i2c-3");
}

#[test]
fn bus_directory_holds_target_directories() {
    let bus = I2cBus::for_bus(3);
    assert_eq!(bus.bus_dir(), "/sys/devices/platform/soc/11d00000.i2c/i2c-3");
    assert!(bus.target_dir(0x50).starts_with(&bus.bus_dir()));
}
