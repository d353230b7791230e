use symbiosis::config::{
    config_dir, exec_line, unit_name, yes, Access, BadExecutable, Config, Configs, Device, Exec,
    Executable, InvalidExecutable, Override, ServiceType, SystemdUnit, TransientService, Unit,
};
use symbiosis::info::Info;
use symbiosis::value::ExtraValue;

fn strings(items: &[&str]) -> Vec<String> {
    items.iter().map(|s| s.to_string()).collect()
}

fn exe(path: &str) -> Executable {
    Executable::new(path.to_string()).unwrap()
}

fn unit(name: &str, run_on_start: bool) -> SystemdUnit {
    SystemdUnit { name: name.to_string(), run_on_start, unit_type: Unit::Service }
}

fn config_with(overrides: Override) -> Config {
    Config {
        overrides: Some(overrides),
        system_unit: None,
        user_unit: None,
        access: None,
        devices: Vec::new(),
    }
}

fn overrides(vendor: Option<&str>, power: Option<bool>, extra: &[(&str, u64)]) -> Override {
    let mut o = Override::new();
    o.vendor_name = vendor.map(str::to_string);
    o.leave_power_on = power;
    for (k, v) in extra {
        o.extra.insert(k.to_string(), ExtraValue::U64(*v));
    }
    o
}

#[test]
fn executable_must_be_absolute() {
    assert_eq!(
        Executable::new("bin/foo".to_string()),
        Err(InvalidExecutable::NotAbsolutePath)
    );
    assert_eq!(Executable::new(String::new()), Err(InvalidExecutable::NotAbsolutePath));
}

#[test]
fn executable_must_have_file_name() {
    assert_eq!(Executable::new("/".to_string()), Err(InvalidExecutable::NoFileName));
    assert_eq!(Executable::new("/usr/bin/..".to_string()), Err(InvalidExecutable::NoFileName));
    assert_eq!(exe("/usr/bin/true").as_str(), "/usr/bin/true");
}

#[test]
fn exec_from_items() {
    let exec = Exec::from_items(strings(&["/path/to/binary", "arg1", "arg2"])).unwrap();
    assert_eq!(exec.path(), "/path/to/binary");
    assert_eq!(exec.args(), vec!["binary", "arg1", "arg2"]);
    assert_eq!(Exec::from_items(Vec::new()), Err(BadExecutable::Missing));
    assert_eq!(
        Exec::from_items(strings(&["relative", "x"])),
        Err(BadExecutable::Invalid(InvalidExecutable::NotAbsolutePath))
    );
}

#[test]
fn exec_line_of_exec() {
    let exec = Exec::from_items(strings(&["/usr/bin/false"])).unwrap();
    let (path, args, ignore_failure) = exec_line(&exec);
    assert_eq!(path, "/usr/bin/false");
    assert_eq!(args, vec!["false"]);
    assert!(!ignore_failure);
}

#[test]
fn unit_names_end_in_service() {
    assert_eq!(unit_name(&unit("my-test-unit", true)), "my-test-unit.service");
    assert_eq!(unit_name(&unit("another.service", true)), "another.service");
    assert_eq!(unit_name(&unit("x.servic", true)), "x.servic.service");
}

#[test]
fn service_type_names() {
    assert_eq!(ServiceType::default(), ServiceType::Simple);
    assert_eq!(ServiceType::Simple.as_str(), "simple");
    assert_eq!(ServiceType::Exec.as_str(), "exec");
    assert_eq!(ServiceType::Oneshot.as_str(), "oneshot");
}

#[test]
fn run_on_start_defaults_to_yes() {
    assert!(yes());
}

#[test]
fn later_overrides_win() {
    let mut a = overrides(Some("first"), Some(true), &[("x", 1), ("y", 2)]);
    let b = overrides(Some("second"), None, &[("y", 3)]);
    a.with_other(b);
    assert_eq!(a.vendor_name.as_deref(), Some("second"));
    assert_eq!(a.leave_power_on, Some(true));
    assert_eq!(a.extra.get("x"), Some(&ExtraValue::U64(1)));
    assert_eq!(a.extra.get("y"), Some(&ExtraValue::U64(3)));
}

#[test]
fn overrides_apply_to_info() {
    let mut info = Info::default();
    info.vendor_name = Some("chip".to_string());
    info.product_name = Some("chip product".to_string());
    info.serial_number = Some("42".to_string());
    info.extra.insert("x".to_string(), ExtraValue::U64(0));
    let mut configs = Configs::new();
    configs.update(Config {
        overrides: Some(overrides(Some("config"), Some(false), &[("x", 9)])),
        system_unit: None,
        user_unit: None,
        access: None,
        devices: Vec::new(),
    });
    let (o, _, _, _) = configs.split();
    info.apply_overrides(o);
    assert_eq!(info.vendor_name.as_deref(), Some("config"));
    assert_eq!(info.product_name.as_deref(), Some("chip product"));
    assert_eq!(info.serial_number.as_deref(), Some("42"));
    assert_eq!(info.leave_power_on, Some(false));
    assert_eq!(info.extra.get("x"), Some(&ExtraValue::U64(9)));
}

#[test]
fn applying_in_sequence_is_applying_combined() {
    let base = || {
        let mut info = Info::default();
        info.vendor_name = Some("chip".to_string());
        info
    };
    let a = || overrides(Some("a"), Some(true), &[("k", 1)]);
    let b = || overrides(None, Some(false), &[("k", 2), ("l", 3)]);

    let mut one = base();
    let mut configs = Configs::new();
    configs.update(config_with(a()));
    one.apply_overrides(configs.split().0);
    let mut configs = Configs::new();
    configs.update(config_with(b()));
    one.apply_overrides(configs.split().0);

    let mut two = base();
    let mut combined = a();
    combined.with_other(b());
    let mut configs = Configs::new();
    configs.update(config_with(combined));
    two.apply_overrides(configs.split().0);

    assert_eq!(one, two);
    assert_eq!(one.vendor_name.as_deref(), Some("a"));
    assert_eq!(one.leave_power_on, Some(false));
    assert_eq!(one.extra.get("k"), Some(&ExtraValue::U64(2)));
}

#[test]
fn configs_collect_units_access_and_devices() {
    let mut configs = Configs::new();
    configs.update(Config {
        overrides: None,
        system_unit: Some(unit("a", true)),
        user_unit: None,
        access: Some(Access { i2c_dev: vec![exe("/bin/foo")] }),
        devices: vec![Device { address: 0x51, name: None }],
    });
    configs.update(Config {
        overrides: None,
        system_unit: Some(unit("b", false)),
        user_unit: Some(unit("c", false)),
        access: Some(Access { i2c_dev: vec![exe("/usr/bin/libexec/bar")] }),
        devices: vec![Device { address: 0x52, name: Some("at24".to_string()) }],
    });
    let (_, devices, units, permissions) = configs.split();
    assert_eq!(devices.0.len(), 2);
    assert_eq!(devices.0[1].address, 0x52);
    assert_eq!(units.system_units.len(), 2);
    assert_eq!(units.system_units[1].name, "b");
    assert_eq!(units.user_units.len(), 1);
    let paths: Vec<&str> = permissions.i2c_dev_exe_paths.iter().map(|e| e.as_str()).collect();
    assert_eq!(paths, ["/bin/foo", "/usr/bin/libexec/bar"]);
}

#[test]
fn units_to_start_on_service_start() {
    let mut configs = Configs::new();
    for (name, run) in [("a", true), ("b", false), ("c", true)] {
        configs.update(Config {
            overrides: None,
            system_unit: Some(unit(name, run)),
            user_unit: Some(unit(name, !run)),
            access: None,
            devices: Vec::new(),
        });
    }
    let (_, _, units, _) = configs.split();
    assert_eq!(units.units_to_start(false), (vec![0, 1, 2], vec![0, 1, 2]));
    assert_eq!(units.units_to_start(true), (vec![0, 2], vec![1]));
    let started = units.started();
    let stopped = started.stopped();
    assert_eq!(stopped.system_units.len(), 3);
}

#[test]
fn permissions_for_i2c_dev() {
    let mut configs = Configs::new();
    configs.update(Config {
        overrides: None,
        system_unit: None,
        user_unit: None,
        access: Some(Access { i2c_dev: vec![exe("/bin/foo"), exe("/bin/bar/")] }),
        devices: Vec::new(),
    });
    let (_, _, _, permissions) = configs.split();
    assert!(permissions.is_allowed_for_i2c_dev("/bin/foo"));
    assert!(permissions.is_allowed_for_i2c_dev("/bin//foo"));
    assert!(permissions.is_allowed_for_i2c_dev("/bin/bar"));
    assert!(!permissions.is_allowed_for_i2c_dev("/bin/baz"));
    assert!(!permissions.is_allowed_for_i2c_dev("/bin/fo"));
    assert!(!permissions.is_allowed_for_i2c_dev("/bin/foo (deleted)"));
}

#[test]
fn config_directory_of_toh() {
    assert_eq!(config_dir(0x1234, 0xabcd), "/usr/share/tohd-1/tohs/1234/abcd");
    assert_eq!(config_dir(1, 0x20), "/usr/share/tohd-1/tohs/0001/0020");
}

#[test]
fn transient_service_fields() {
    let service = TransientService {
        description: "My Test Unit".to_string(),
        service_type: ServiceType::Oneshot,
        service_exec: Exec::from_items(strings(&["/path/to/binary", "arg1", "arg2"])).unwrap(),
        exec_stop: None,
    };
    assert_eq!(service.service_exec.args(), vec!["binary", "arg1", "arg2"]);
    assert_eq!(service.service_type.as_str(), "oneshot");
}

#[test]
fn combining_overrides_is_associative() {
    let a = || overrides(Some("a"), None, &[("k", 1)]);
    let b = || overrides(None, Some(true), &[("k", 2), ("l", 2)]);
    let c = || overrides(Some("c"), None, &[("l", 3)]);
    let mut left = a();
    left.with_other(b());
    left.with_other(c());
    let mut bc = b();
    bc.with_other(c());
    let mut right = a();
    right.with_other(bc);
    assert_eq!(left.vendor_name, right.vendor_name);
    assert_eq!(left.leave_power_on, right.leave_power_on);
    assert_eq!(left.extra, right.extra);
    assert_eq!(left.extra.get("l"), Some(&ExtraValue::U64(3)));
}

#[test]
fn empty_overrides_change_nothing() {
    let mut info = Info::default();
    info.vendor_name = Some("chip".to_string());
    info.extra.insert("x".to_string(), ExtraValue::Null);
    let mut configs = Configs::new();
    configs.update(config_with(Override::new()));
    let mut expected = Info::default();
    expected.vendor_name = Some("chip".to_string());
    expected.extra.insert("x".to_string(), ExtraValue::Null);
    info.apply_overrides(configs.split().0);
    assert_eq!(info, expected);
}

#[test]
fn unit_name_is_idempotent() {
    for name in ["a", "b.service", ".service", ""] {
        let once = unit_name(&unit(name, true));
        assert_eq!(unit_name(&unit(&once, true)), once);
    }
}

#[test]
fn config_files_in_name_order() {
    let names = strings(&["b.yaml", "a.yaml", ".yaml", "c.yml", "notes", "10-x.yaml", "x.yaml.bak", "d.", ".e.yaml"]);
    let files = symbiosis::config::config_file_names(&names);
    assert_eq!(files, strings(&[".e.yaml", "10-x.yaml", "a.yaml", "b.yaml"]));
}

#[test]
fn configs_from_config_files_in_order() {
    let configs = Configs::from_configs(vec![
        Config {
            overrides: Some(overrides(Some("first"), Some(true), &[])),
            system_unit: Some(unit("a", true)),
            user_unit: None,
            access: Some(Access { i2c_dev: vec![exe("/bin/foo")] }),
            devices: vec![Device { address: 0x51, name: None }],
        },
        Config {
            overrides: None,
            system_unit: None,
            user_unit: Some(unit("c", false)),
            access: None,
            devices: Vec::new(),
        },
        Config {
            overrides: Some(overrides(Some("last"), None, &[])),
            system_unit: Some(unit("b", false)),
            user_unit: None,
            access: Some(Access { i2c_dev: vec![exe("/bin/bar")] }),
            devices: vec![Device { address: 0x52, name: None }],
        },
    ])
    .unwrap();
    assert_eq!(configs.overrides.vendor_name.as_deref(), Some("last"));
    assert_eq!(configs.overrides.leave_power_on, Some(true));
    let names: Vec<&str> = configs.system_units.iter().map(|u| u.name.as_str()).collect();
    assert_eq!(names, ["a", "b"]);
    assert_eq!(configs.user_units.len(), 1);
    assert_eq!(configs.access.i2c_dev.len(), 2);
    let addresses: Vec<u8> = configs.devices.iter().map(|d| d.address).collect();
    assert_eq!(addresses, [0x51, 0x52]);
}

#[test]
fn no_config_files_give_no_configs() {
    assert!(Configs::from_configs(Vec::new()).is_none());
}

#[test]
fn permissions_hold_each_path_once() {
    let configs = Configs::from_configs(vec![
        Config {
            overrides: None,
            system_unit: None,
            user_unit: None,
            access: Some(Access { i2c_dev: vec![exe("/bin/foo"), exe("/bin//foo"), exe("/bin/bar")] }),
            devices: Vec::new(),
        },
        Config {
            overrides: None,
            system_unit: None,
            user_unit: None,
            access: Some(Access { i2c_dev: vec![exe("/bin/bar/"), exe("/bin/baz")] }),
            devices: Vec::new(),
        },
    ])
    .unwrap();
    let (_, _, _, permissions) = configs.split();
    let paths: Vec<&str> = permissions.i2c_dev_exe_paths.iter().map(|e| e.as_str()).collect();
    assert_eq!(paths, ["/bin/foo", "/bin/bar", "/bin/baz"]);
    assert!(permissions.is_allowed_for_i2c_dev("/bin/foo"));
    assert!(permissions.is_allowed_for_i2c_dev("/bin/bar"));
    assert!(permissions.is_allowed_for_i2c_dev("/bin/baz"));
    assert!(!permissions.is_allowed_for_i2c_dev("/bin/qux"));
}

#[test]
fn argv0_is_the_file_name() {
    let exec = Exec::from_items(strings(&["/usr/bin/false", "-x"])).unwrap();
    assert_eq!(exec.args(), vec!["false", "-x"]);
    let exec = Exec::from_items(strings(&["/usr/bin/"])).unwrap();
    assert_eq!(exec.args(), vec!["bin"]);
    let exec = Exec::from_items(strings(&["/usr//bin/./", "a"])).unwrap();
    assert_eq!(exec.args(), vec!["bin", "a"]);
    assert_eq!(exec_line(&exec).1, vec!["bin", "a"]);
}

#[test]
fn executable_file_names() {
    assert!(Executable::new("/".to_string()).is_err());
    assert_eq!(Executable::new("/.".to_string()), Err(InvalidExecutable::NoFileName));
    assert_eq!(exe("/a/./b/.").as_str(), "/a/./b/.");
}
