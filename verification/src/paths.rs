//! Device file and directory paths.

use vstd::prelude::*;

verus! {

/// Power output request attribute.
pub const PWR_PATH: &'static str = "/sys/class/yft_pogo_pin/yft_pogo_pin_5v_out_state";

/// ID pin ADC value attribute.
pub const ADC_PATH: &'static str = "/sys/class/yft_pogo_pin/yft_pogo_pin_adc_value";

/// Interrupt pin state attribute.
pub const INT_PATH: &'static str = "/sys/class/yft_pogo_pin/yft_pogo_pin_int_state";

/// Directory of the voltage regulators of the pogo pin driver.
pub const REGULATOR_PATH: &'static str = "/sys/class/yft_pogo_pin/regulator";

/// TOH I3C/I²C bus device, at address 11d00000.
pub const BUS_PATH: &'static str = "/sys/devices/platform/soc/11d00000.i2c";

/// Directory of the TOH config files.
pub const CONFIG_PATH: &'static str = "/usr/share/tohd-1/tohs/";

/// Prefix of i2c-dev device files; the bus number follows it.
pub const I2C_DEV_PREFIX: &'static str = "/dev/i2c-";

} // verus!
