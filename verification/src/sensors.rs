//! Register decoding for the board's BMP280 barometer and ICM-42688-P IMU.

use vstd::prelude::*;
use crate::layout::from_le16;

verus! {

/// BMP280 I²C address.
pub const BAROMETER_I2C_ADDRESS: u8 = 0x76;
/// The BMP280's chip identification.
pub const BAROMETER_CHIP_ID: u8 = 0x58;
pub const BAROMETER_REG_CHIP_ID: u8 = 0xd0;
pub const BAROMETER_REG_CALIBRATION: u8 = 0x88;
pub const BAROMETER_REG_CONTROL: u8 = 0xf4;
pub const BAROMETER_REG_CONFIG: u8 = 0xf5;
pub const BAROMETER_REG_PRESSURE: u8 = 0xf7;

/// ICM-42688-P register map and identity.
pub const IMU_WHO_AM_I: u8 = 0x75;
pub const IMU_WHO_AM_I_VALUE: u8 = 0x47;
pub const IMU_I2C_ADDRESS: u8 = 0x69;
pub const IMU_PWR_MGMT0: u8 = 0x4e;
pub const IMU_GYRO_CONFIG0: u8 = 0x4f;
pub const IMU_ACCEL_CONFIG0: u8 = 0x50;
pub const IMU_ACCEL_DATA_X1: u8 = 0x1f;
/// ±16 g / ±2000 °/s full scale (FS_SEL 0) at a 100 Hz output rate (ODR 7).
pub const IMU_CONFIG_100_HZ: u8 = 0x07;

#[derive(Debug)]
pub enum BarometerError {
    IdentityRead,
    UnexpectedIdentity(u8),
    CalibrationRead,
    Configuration,
    DataRead,
}

#[derive(Debug)]
pub enum ImuError {
    IdentityRead,
    UnexpectedIdentity(u8),
    PowerMode,
    GyroConfiguration,
    AccelConfiguration,
    DataRead,
}

/// The BMP280's factory trimming parameters.
#[derive(Clone, Copy, Debug)]
pub struct Calibration {
    pub t1: u16,
    pub t2: i16,
    pub t3: i16,
    pub p1: u16,
    pub p2: i16,
    pub p3: i16,
    pub p4: i16,
    pub p5: i16,
    pub p6: i16,
    pub p7: i16,
    pub p8: i16,
    pub p9: i16,
}

/// The little-endian `u16` at `offset`.
pub open spec fn u16_at(bytes: Seq<u8>, offset: int) -> u16 {
    from_le16(seq![bytes[offset], bytes[offset + 1]])
}

/// The little-endian `i16` at `offset`.
pub open spec fn i16_at(bytes: Seq<u8>, offset: int) -> i16 {
    u16_at(bytes, offset) as i16
}

fn read_u16(bytes: &[u8; 24], offset: usize) -> (v: u16)
    requires
        offset + 1 < 24,
    ensures
        v == u16_at(bytes@, offset as int),
{
    (bytes[offset] as u16) | ((bytes[offset + 1] as u16) << 8)
}

impl Calibration {
    /// Decodes the 24 calibration registers starting at 0x88: twelve
    /// little-endian words, T1 and P1 unsigned, the others signed.
    pub fn from_registers(bytes: [u8; 24]) -> (c: Self)
        ensures
            c.t1 == u16_at(bytes@, 0),
            c.t2 == i16_at(bytes@, 2),
            c.t3 == i16_at(bytes@, 4),
            c.p1 == u16_at(bytes@, 6),
            c.p2 == i16_at(bytes@, 8),
            c.p3 == i16_at(bytes@, 10),
            c.p4 == i16_at(bytes@, 12),
            c.p5 == i16_at(bytes@, 14),
            c.p6 == i16_at(bytes@, 16),
            c.p7 == i16_at(bytes@, 18),
            c.p8 == i16_at(bytes@, 20),
            c.p9 == i16_at(bytes@, 22),
    {
        Calibration {
            t1: read_u16(&bytes, 0),
            t2: read_u16(&bytes, 2) as i16,
            t3: read_u16(&bytes, 4) as i16,
            p1: read_u16(&bytes, 6),
            p2: read_u16(&bytes, 8) as i16,
            p3: read_u16(&bytes, 10) as i16,
            p4: read_u16(&bytes, 12) as i16,
            p5: read_u16(&bytes, 14) as i16,
            p6: read_u16(&bytes, 16) as i16,
            p7: read_u16(&bytes, 18) as i16,
            p8: read_u16(&bytes, 20) as i16,
            p9: read_u16(&bytes, 22) as i16,
        }
    }
}

/// Checks the BMP280's identity register.
pub fn barometer_identity(id: u8) -> (result: Result<(), BarometerError>)
    ensures
        id == BAROMETER_CHIP_ID ==> result is Ok,
        id != BAROMETER_CHIP_ID ==> (result matches Err(BarometerError::UnexpectedIdentity(v)) && v == id),
{
    if id != BAROMETER_CHIP_ID {
        Err(BarometerError::UnexpectedIdentity(id))
    } else {
        Ok(())
    }
}

/// Decodes the calibration registers; a zero P1 (which would make the
/// pressure formula divide by zero) means the read went wrong.
pub fn barometer_calibration(bytes: [u8; 24]) -> (result: Result<Calibration, BarometerError>)
    ensures
        u16_at(bytes@, 6) == 0 ==> result matches Err(BarometerError::CalibrationRead),
        u16_at(bytes@, 6) != 0 ==> (result matches Ok(c) && c.t1 == u16_at(bytes@, 0) && c.t2 == i16_at(bytes@, 2)
            && c.t3 == i16_at(bytes@, 4) && c.p1 == u16_at(bytes@, 6) && c.p2 == i16_at(bytes@, 8)
            && c.p3 == i16_at(bytes@, 10) && c.p4 == i16_at(bytes@, 12) && c.p5 == i16_at(bytes@, 14)
            && c.p6 == i16_at(bytes@, 16) && c.p7 == i16_at(bytes@, 18) && c.p8 == i16_at(bytes@, 20)
            && c.p9 == i16_at(bytes@, 22)),
{
    let c = Calibration::from_registers(bytes);
    if c.p1 == 0 {
        Err(BarometerError::CalibrationRead)
    } else {
        Ok(c)
    }
}

/// The 20-bit value in three data registers: MSB, LSB and the XLSB's top
/// nibble.
pub open spec fn raw20(msb: u8, lsb: u8, xlsb: u8) -> int {
    msb * 4096 + lsb * 16 + xlsb / 16
}

fn assemble20(msb: u8, lsb: u8, xlsb: u8) -> (v: i32)
    ensures
        v == raw20(msb, lsb, xlsb),
{
    let v = ((msb as i32) << 12) | ((lsb as i32) << 4) | ((xlsb as i32) >> 4);
    assert(((msb as i32) << 12u32) | ((lsb as i32) << 4u32) | ((xlsb as i32) >> 4u32)
        == (msb as i32) * 4096 + (lsb as i32) * 16 + (xlsb as i32) / 16) by (bit_vector);
    v
}

/// The raw pressure and temperature readings in the six data registers
/// starting at 0xF7.
pub fn barometer_raw(data: [u8; 6]) -> (raw: (i32, i32))
    ensures
        raw.0 == raw20(data@[0], data@[1], data@[2]),
        raw.1 == raw20(data@[3], data@[4], data@[5]),
{
    (assemble20(data[0], data[1], data[2]), assemble20(data[3], data[4], data[5]))
}

/// Checks the IMU's WHO_AM_I register.
pub fn imu_identity(value: u8) -> (result: Result<(), ImuError>)
    ensures
        value == IMU_WHO_AM_I_VALUE ==> result is Ok,
        value != IMU_WHO_AM_I_VALUE ==> (result matches Err(ImuError::UnexpectedIdentity(v)) && v == value),
{
    if value != IMU_WHO_AM_I_VALUE {
        Err(ImuError::UnexpectedIdentity(value))
    } else {
        Ok(())
    }
}

/// The big-endian `i16` at `offset`.
pub open spec fn be_i16_at(bytes: Seq<u8>, offset: int) -> i16 {
    from_le16(seq![bytes[offset + 1], bytes[offset]]) as i16
}

/// The six raw axes of one IMU sample: bank 0 lays out the big-endian
/// accelerometer X, Y, Z words followed by the gyroscope X, Y, Z words, so
/// one 12-byte read is atomic.
pub fn imu_axes(data: [u8; 12]) -> (axes: [i16; 6])
    ensures
        forall|k: int| 0 <= k < 6 ==> #[trigger] axes@[k] == be_i16_at(data@, 2 * k),
{
    let mut axes = [0i16; 6];
    let mut k: usize = 0;
    while k < 6
        invariant
            k <= 6,
            forall|j: int| 0 <= j < k ==> #[trigger] axes@[j] == be_i16_at(data@, 2 * j),
        decreases 6 - k,
    {
        axes[k] = ((data[2 * k + 1] as u16) | ((data[2 * k] as u16) << 8)) as i16;
        k = k + 1;
    }
    axes
}

} // verus!
