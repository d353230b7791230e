//! Bus control.
//!
//! Targets on the TOH I²C bus are added and removed through the `new_device` and `delete_device`
//! attributes of the bus directory `i2c-N` (N is the bus number) under the bus device. Each target
//! on the bus has a directory `N-AAAA` beside them, AAAA being its address in four hexadecimal
//! digits, with a `name` attribute.

use crate::attr::{Attribute, Write};
use crate::paths::BUS_PATH;
use crate::text::{
    decimal, has_prefix, hex_fixed, join_path, lemma_scan_decimal, lemma_scan_hex_fixed,
    parse_unsigned, parse_unsigned_range, path_join, push_decimal, push_hex_fixed, starts_with,
    trim_end, trimmed_equals,
};
use vstd::prelude::*;

verus! {

/// Prefix of the name of the bus directory.
pub open spec fn i2c_prefix() -> Seq<char> {
    seq!['i', '2', 'c', '-']
}

/// Name of the directory of bus `bus`: `i2c-` and the bus number.
pub open spec fn bus_dir_name(bus: u8) -> Seq<char> {
    i2c_prefix() + decimal(bus as nat)
}

/// The bus number that the directory name `name` gives: `i2c-` followed by a number that fits in
/// a byte.
pub open spec fn bus_number_of(name: Seq<char>) -> Option<u8> {
    if has_prefix(name, i2c_prefix()) {
        match parse_unsigned(name.skip(4), 10, 255) {
            Ok(v) => Some(v as u8),
            Err(_) => None,
        }
    } else {
        None
    }
}

/// The bus number of the first of the directory names `names` that gives one.
pub open spec fn first_bus(names: Seq<String>) -> Option<u8>
    decreases names.len(),
{
    if names.len() == 0 {
        None
    } else {
        match bus_number_of(names[0]@) {
            Some(b) => Some(b),
            None => first_bus(names.drop_first()),
        }
    }
}

/// Path of the directory of bus `bus`.
pub open spec fn bus_dir(bus: u8) -> Seq<char> {
    path_join(BUS_PATH@, bus_dir_name(bus))
}

/// Name of the directory of the target at `address` on bus `bus`.
pub open spec fn target_name(bus: u8, address: u8) -> Seq<char> {
    decimal(bus as nat) + seq!['-'] + hex_fixed(address as nat, 4)
}

/// The address of the target on bus `bus` that the directory name `name` gives: the bus number
/// and `-`, followed by a hexadecimal number that fits in a byte.
pub open spec fn target_address_of(bus: u8, name: Seq<char>) -> Option<u8> {
    let prefix = decimal(bus as nat) + seq!['-'];
    if has_prefix(name, prefix) {
        match parse_unsigned(name.skip(prefix.len() as int), 16, 255) {
            Ok(v) => Some(v as u8),
            Err(_) => None,
        }
    } else {
        None
    }
}

/// The addresses that the directory names `names` give for targets on bus `bus`, in their order.
pub open spec fn target_addresses_of(bus: u8, names: Seq<String>) -> Seq<u8>
    decreases names.len(),
{
    if names.len() == 0 {
        Seq::empty()
    } else {
        match target_address_of(bus, names.last()@) {
            Some(a) => target_addresses_of(bus, names.drop_last()).push(a),
            None => target_addresses_of(bus, names.drop_last()),
        }
    }
}

/// What `new_device` is written to add the target at `address` with the driver `name`.
pub open spec fn new_device_line(name: Seq<char>, address: u8) -> Seq<char> {
    name + seq![' ', '0', 'x'] + hex_fixed(address as nat, 2) + seq!['\n']
}

/// What `delete_device` is written to remove the target at `address`.
pub open spec fn delete_device_line(address: u8) -> Seq<char> {
    seq!['0', 'x'] + hex_fixed(address as nat, 2) + seq!['\n']
}

/// Finds the number of the TOH I²C bus among the names of the directories in the bus device
/// directory.
pub fn find_toh_i2c_bus(dir_names: &Vec<String>) -> (res: Option<u8>)
    ensures
        res == first_bus(dir_names@),
{
    proof {
        reveal_strlit("i2c-");
        assert("i2c-"@ =~= i2c_prefix());
    }
    let mut i: usize = 0;
    assert(dir_names@.skip(0) =~= dir_names@);
    while i < dir_names.len()
        invariant
            i <= dir_names@.len(),
            first_bus(dir_names@) == first_bus(dir_names@.skip(i as int)),
            "i2c-"@ == i2c_prefix(),
        decreases dir_names@.len() - i,
    {
        let name = dir_names[i].as_str();
        proof {
            assert(dir_names@.skip(i as int)[0] == dir_names@[i as int]);
            assert(dir_names@.skip(i as int).drop_first() =~= dir_names@.skip(i + 1));
        }
        if starts_with(name, "i2c-") {
            let n = name.unicode_len();
            proof {
                assert(name@.subrange(4, n as int) =~= name@.skip(4));
            }
            match parse_unsigned_range(name, 4, n, 10, 255) {
                Ok(v) => {
                    return Some(v as u8);
                },
                Err(_) => {},
            }
        }
        i = i + 1;
    }
    None
}

/// Adds `s` for `v` as a decimal number.
fn decimal_string(v: u8) -> (res: String)
    ensures
        res@ == decimal(v as nat),
{
    let mut s = String::new();
    push_decimal(&mut s, v as u64);
    assert(s@ =~= decimal(v as nat));
    s
}

/// Control devices available via I²C bus.
#[derive(Debug)]
pub struct I2cBus {
    /// Number of the bus.
    pub bus: u8,
    /// Attribute for adding targets.
    pub new_device: Attribute<Write>,
    /// Attribute for removing targets.
    pub delete_device: Attribute<Write>,
}

impl I2cBus {
    /// Whether the attributes are those of bus `bus`.
    pub open spec fn wf(&self) -> bool {
        &&& self.new_device.path@ == path_join(bus_dir(self.bus), "new_device"@)
        &&& self.delete_device.path@ == path_join(bus_dir(self.bus), "delete_device"@)
    }

    /// Bus `bus`, with its attributes.
    pub fn for_bus(bus: u8) -> (res: Self)
        ensures
            res.bus == bus,
            res.wf(),
    {
        let mut name = String::from_str("i2c-");
        proof {
            reveal_strlit("i2c-");
        }
        name.append(decimal_string(bus).as_str());
        assert(name@ =~= bus_dir_name(bus));
        let dir = join_path(BUS_PATH, name.as_str());
        let new_device = Attribute::writable(join_path(dir.as_str(), "new_device"));
        let delete_device = Attribute::writable(join_path(dir.as_str(), "delete_device"));
        I2cBus { bus, new_device, delete_device }
    }

    /// Creates the instance for the TOH I²C bus, whose number the first of the names of the
    /// directories in the bus device directory that names a bus gives.
    pub fn toh_bus(dir_names: &Vec<String>) -> (res: Option<Self>)
        ensures
            match first_bus(dir_names@) {
                Some(b) => res matches Some(x) && x.bus == b && x.wf(),
                None => res is None,
            },
    {
        match find_toh_i2c_bus(dir_names) {
            Some(bus) => Some(I2cBus::for_bus(bus)),
            None => None,
        }
    }

    /// Path of the directory of this bus, under which its targets have their directories.
    pub fn bus_dir(&self) -> (res: String)
        ensures
            res@ == bus_dir(self.bus),
    {
        proof {
            reveal_strlit("i2c-");
        }
        let mut dir_name = String::from_str("i2c-");
        dir_name.append(decimal_string(self.bus).as_str());
        assert(dir_name@ =~= bus_dir_name(self.bus));
        join_path(BUS_PATH, dir_name.as_str())
    }

    /// Path of the directory of the target at `address`.
    pub fn target_dir(&self, address: u8) -> (res: String)
        ensures
            res@ == path_join(bus_dir(self.bus), target_name(self.bus, address)),
    {
        let mut name = decimal_string(self.bus);
        name.append("-");
        push_hex_fixed(&mut name, address as u64, 4);
        proof {
            reveal_strlit("-");
        }
        assert(name@ =~= target_name(self.bus, address));
        let dir = self.bus_dir();
        join_path(dir.as_str(), name.as_str())
    }

    /// The addresses of the targets on this bus among the names of the directories in the bus
    /// device directory, in their order.
    pub fn target_addresses(&self, dir_names: &Vec<String>) -> (res: Vec<u8>)
        ensures
            res@ == target_addresses_of(self.bus, dir_names@),
    {
        let mut prefix = decimal_string(self.bus);
        prefix.append("-");
        proof {
            reveal_strlit("-");
        }
        let ghost p = decimal(self.bus as nat) + seq!['-'];
        assert(prefix@ =~= p);
        let plen = prefix.unicode_len();
        let mut res: Vec<u8> = Vec::new();
        let mut i: usize = 0;
        while i < dir_names.len()
            invariant
                i <= dir_names@.len(),
                prefix@ == p,
                plen == p.len(),
                p == decimal(self.bus as nat) + seq!['-'],
                res@ == target_addresses_of(self.bus, dir_names@.take(i as int)),
            decreases dir_names@.len() - i,
        {
            proof {
                assert(dir_names@.take(i + 1).drop_last() =~= dir_names@.take(i as int));
                assert(dir_names@.take(i + 1).last() == dir_names@[i as int]);
            }
            let name = dir_names[i].as_str();
            if starts_with(name, prefix.as_str()) {
                let n = name.unicode_len();
                proof {
                    assert(name@.subrange(plen as int, n as int) =~= name@.skip(plen as int));
                }
                match parse_unsigned_range(name, plen, n, 16, 255) {
                    Ok(v) => {
                        res.push(v as u8);
                    },
                    Err(_) => {},
                }
            }
            i = i + 1;
        }
        assert(dir_names@.take(i as int) =~= dir_names@);
        res
    }
}

/// Appends `v` as two hexadecimal digits, `0x` before them.
fn push_hex_byte(s: &mut String, v: u8)
    ensures
        final(s)@ == old(s)@ + seq!['0', 'x'] + hex_fixed(v as nat, 2),
{
    s.append("0x");
    proof {
        reveal_strlit("0x");
    }
    push_hex_fixed(s, v as u64, 2);
    assert(final(s)@ =~= old(s)@ + seq!['0', 'x'] + hex_fixed(v as nat, 2));
}

/// What `new_device` is written to add the target at `address` with the driver `name`.
pub fn new_device_text(name: &str, address: u8) -> (res: String)
    ensures
        res@ == new_device_line(name@, address),
{
    let mut s = String::from_str(name);
    s.append(" ");
    proof {
        reveal_strlit(" ");
        reveal_strlit("\n");
    }
    push_hex_byte(&mut s, address);
    s.append("\n");
    assert(s@ =~= new_device_line(name@, address));
    s
}

/// What `delete_device` is written to remove the target at `address`.
pub fn delete_device_text(address: u8) -> (res: String)
    ensures
        res@ == delete_device_line(address),
{
    let mut s = String::new();
    push_hex_byte(&mut s, address);
    s.append("\n");
    proof {
        reveal_strlit("\n");
    }
    assert(s@ =~= delete_device_line(address));
    s
}

/// What adding a target does, given what is at its address.
#[derive(Debug, Clone, Copy, PartialEq, Eq, Structural)]
pub enum AddTarget {
    /// The target is there with the right driver name; nothing is written.
    Present,
    /// There is no target; `new_device` is written.
    Add,
    /// A target with another driver name is there; `delete_device` and then `new_device` are
    /// written.
    Replace,
}

/// The driver name that a target is added with: `name`, or `none`.
pub open spec fn driver_name(name: Option<Seq<char>>) -> Seq<char> {
    match name {
        Some(n) => n,
        None => seq!['n', 'o', 'n', 'e'],
    }
}

/// What adding a target with the driver `name` does, where `current` is what the `name`
/// attribute of the target directory holds, if the directory exists.
pub open spec fn add_target_step(name: Seq<char>, current: Option<Seq<char>>) -> AddTarget {
    match current {
        None => AddTarget::Add,
        Some(c) => if trim_end(c) == name {
            AddTarget::Present
        } else {
            AddTarget::Replace
        },
    }
}

/// Decides what adding a target with the driver `name` does, where `current` is what the `name`
/// attribute of the target directory holds, if the directory exists.
pub fn add_target_action(name: &str, current: Option<&str>) -> (res: AddTarget)
    ensures
        res == add_target_step(name@, match current {
            Some(c) => Some(c@),
            None => None,
        }),
{
    match current {
        None => AddTarget::Add,
        Some(c) => if trimmed_equals(c, name) {
            AddTarget::Present
        } else {
            AddTarget::Replace
        },
    }
}

/// Target device that has an address on the bus.
#[derive(Debug)]
pub struct I2cTarget {
    /// Attribute for removing the target.
    pub delete_device: Attribute<Write>,
    /// Address of the target.
    pub address: u8,
}

impl I2cTarget {
    /// The target at `address` on `bus`.
    pub fn new(bus: &I2cBus, address: u8) -> (res: Self)
        ensures
            res.delete_device.path@ == bus.delete_device.path@,
            res.address == address,
    {
        I2cTarget { delete_device: bus.delete_device.clone(), address }
    }

    /// Removes the target device from the bus: gives the attribute to write and what to write to
    /// it.
    pub fn remove(self) -> (res: (Attribute<Write>, String))
        ensures
            res.0.path@ == self.delete_device.path@,
            res.1@ == delete_device_line(self.address),
    {
        let I2cTarget { delete_device, address } = self;
        (delete_device, delete_device_text(address))
    }
}

/// The directory name of bus `bus` gives back the bus number.
pub proof fn lemma_bus_dir_name(bus: u8)
    ensures
        bus_number_of(bus_dir_name(bus)) == Some(bus),
{
    let name = bus_dir_name(bus);
    assert(name.take(4) =~= i2c_prefix());
    assert(name.skip(4) =~= decimal(bus as nat));
    lemma_scan_decimal(bus as nat, 255);
    lemma_decimal_first(bus as nat);
}

/// The first character of a decimal number is a digit.
proof fn lemma_decimal_first(v: nat)
    ensures
        decimal(v).len() >= 1,
        '0' <= decimal(v)[0] <= '9',
    decreases v,
{
    if v >= 10 {
        lemma_decimal_first(v / 10);
        assert(decimal(v)[0] == decimal(v / 10)[0]);
    }
}

/// The first character of a fixed width hexadecimal number is a digit.
proof fn lemma_hex_first(v: nat, n: nat)
    requires
        n >= 1,
    ensures
        hex_fixed(v, n).len() == n,
        hex_fixed(v, n)[0] != '+',
        hex_fixed(v, n)[0] != '-',
    decreases n,
{
    if n > 1 {
        lemma_hex_first(v / 16, (n - 1) as nat);
        assert(hex_fixed(v, n)[0] == hex_fixed(v / 16, (n - 1) as nat)[0]);
    } else {
        assert(hex_fixed(v / 16, 0) =~= Seq::<char>::empty());
        assert(hex_fixed(v, n)[0] == crate::text::hex_char(v as int % 16));
    }
}

/// The directory name of the target at `address` gives back the address.
pub proof fn lemma_target_name(bus: u8, address: u8)
    ensures
        target_address_of(bus, target_name(bus, address)) == Some(address),
{
    let prefix = decimal(bus as nat) + seq!['-'];
    let name = target_name(bus, address);
    assert(name.take(prefix.len() as int) =~= prefix);
    assert(name.skip(prefix.len() as int) =~= hex_fixed(address as nat, 4));
    lemma_hex_first(address as nat, 4);
    assert(address < vstd::arithmetic::power::pow(16, 4)) by {
        vstd::arithmetic::power::lemma_pow_positive(16, 4);
        reveal(vstd::arithmetic::power::pow);
        assert(vstd::arithmetic::power::pow(16, 4) == 65536) by {
            reveal_with_fuel(vstd::arithmetic::power::pow, 5);
        }
    }
    lemma_scan_hex_fixed(address as nat, 4, 255);
}

/// Path of the i2c-dev device file of bus `bus`.
pub open spec fn i2c_dev_path(bus: u8) -> Seq<char> {
    crate::paths::I2C_DEV_PREFIX@ + decimal(bus as nat)
}

impl I2cBus {
    /// Path of the i2c-dev device file of this bus.
    pub fn i2c_dev_path(&self) -> (res: String)
        ensures
            res@ == i2c_dev_path(self.bus),
    {
        let mut path = String::from_str(crate::paths::I2C_DEV_PREFIX);
        path.append(decimal_string(self.bus).as_str());
        path
    }
}

} // verus!
