//! The public value types of the control surface: usages, directions, lock targets, reboot and
//! update targets, and the identity a box reports.

use crate::opcode::{
    BTN_COUNT, LOCK_AXIS_PAN, LOCK_AXIS_WHEEL, LOCK_AXIS_X, LOCK_AXIS_Y, LOCK_CLS_AXIS, LOCK_CLS_BTN,
    LOCK_CLS_KEY, LOCK_CLS_MEDIA, LOCK_DIR_AGAINST, LOCK_DIR_BOTH, LOCK_DIR_NEG, LOCK_DIR_POS,
    LOCK_DIR_WITH,
};
use vstd::prelude::*;

verus! {

/// The tri-state injection action: force down, clear our press, or force up.
#[derive(Clone, Copy, Debug, PartialEq, Eq, Hash, Structural)]
pub enum Action {
    /// Force the usage active.
    Press,
    /// Clear our injected press; a physical hold is left intact.
    SoftRelease,
    /// Force the usage inactive, masking a physical hold too.
    ForceRelease,
}

/// The wire byte of an [`Action`].
pub open spec fn action_byte(a: Action) -> u8 {
    match a {
        Action::SoftRelease => 0,
        Action::Press => 1,
        Action::ForceRelease => 2,
    }
}

impl Action {
    /// The wire byte.
    pub fn as_u8(self) -> (b: u8)
        ensures
            b == action_byte(self),
    {
        match self {
            Action::SoftRelease => 0,
            Action::Press => 1,
            Action::ForceRelease => 2,
        }
    }
}

/// The class of a momentary usage.
#[derive(Clone, Copy, Debug, PartialEq, Eq, Hash, PartialOrd, Ord, Structural)]
pub enum Class {
    /// A mouse button.
    Button,
    /// A keyboard key.
    Key,
    /// A media (Consumer) usage.
    Media,
}

/// The wire byte of a [`Class`].
pub open spec fn class_byte(c: Class) -> u8 {
    match c {
        Class::Button => LOCK_CLS_BTN,
        Class::Key => LOCK_CLS_KEY,
        Class::Media => LOCK_CLS_MEDIA,
    }
}

/// The class a wire byte names, if any.
pub open spec fn class_of_byte(b: u8) -> Option<Class> {
    if b == LOCK_CLS_BTN {
        Some(Class::Button)
    } else if b == LOCK_CLS_KEY {
        Some(Class::Key)
    } else if b == LOCK_CLS_MEDIA {
        Some(Class::Media)
    } else {
        None
    }
}

impl Class {
    /// The wire byte.
    pub fn as_u8(self) -> (b: u8)
        ensures
            b == class_byte(self),
    {
        match self {
            Class::Button => LOCK_CLS_BTN,
            Class::Key => LOCK_CLS_KEY,
            Class::Media => LOCK_CLS_MEDIA,
        }
    }

    /// The class a wire byte names.
    pub fn from_u8(b: u8) -> (c: Option<Class>)
        ensures
            c == class_of_byte(b),
    {
        if b == LOCK_CLS_BTN {
            Some(Class::Button)
        } else if b == LOCK_CLS_KEY {
            Some(Class::Key)
        } else if b == LOCK_CLS_MEDIA {
            Some(Class::Media)
        } else {
            None
        }
    }
}

/// A momentary usage of any class: a button id, a HID keycode or a Consumer usage.
#[derive(Clone, Copy, Debug, PartialEq, Eq, Hash, Structural)]
pub struct Usage {
    /// The usage's class.
    pub class: Class,
    /// The id within the class.
    pub id: u16,
}

impl Usage {
    /// A usage of `class` with `id`.
    pub fn new(class: Class, id: u16) -> (u: Usage)
        ensures
            u.class == class,
            u.id == id,
    {
        Usage { class, id }
    }

    /// The `(class byte, id)` pair the wire carries.
    pub fn class_id(self) -> (r: (u8, u16))
        ensures
            r == (class_byte(self.class), self.id),
    {
        (self.class.as_u8(), self.id)
    }
}

/// The five named mouse buttons.
#[derive(Clone, Copy, Debug, PartialEq, Eq, Hash, Structural)]
pub enum Button {
    Left,
    Right,
    Middle,
    Side1,
    Side2,
}

/// The wire id of a [`Button`].
pub open spec fn button_id(b: Button) -> u8 {
    match b {
        Button::Left => 0,
        Button::Right => 1,
        Button::Middle => 2,
        Button::Side1 => 3,
        Button::Side2 => 4,
    }
}

impl Button {
    /// The wire id (0 to 4).
    pub fn as_id(self) -> (id: u8)
        ensures
            id == button_id(self),
            id < BTN_COUNT,
    {
        match self {
            Button::Left => 0,
            Button::Right => 1,
            Button::Middle => 2,
            Button::Side1 => 3,
            Button::Side2 => 4,
        }
    }

    /// The named button with wire id `id`, if any.
    pub fn from_id(id: u8) -> (b: Option<Button>)
        ensures
            id < BTN_COUNT <==> b.is_some(),
            b matches Some(x) ==> button_id(x) == id,
    {
        match id {
            0 => Some(Button::Left),
            1 => Some(Button::Right),
            2 => Some(Button::Middle),
            3 => Some(Button::Side1),
            4 => Some(Button::Side2),
            _ => None,
        }
    }

    /// The button as a momentary usage.
    pub fn usage(self) -> (u: Usage)
        ensures
            u.class == Class::Button,
            u.id == button_id(self) as u16,
    {
        Usage { class: Class::Button, id: self.as_id() as u16 }
    }
}

/// A relative axis.
#[derive(Clone, Copy, Debug, PartialEq, Eq, Hash, PartialOrd, Ord, Structural)]
pub enum Axis {
    X,
    Y,
    Wheel,
    Pan,
}

/// The wire id of an [`Axis`].
pub open spec fn axis_id(a: Axis) -> u16 {
    match a {
        Axis::X => LOCK_AXIS_X,
        Axis::Y => LOCK_AXIS_Y,
        Axis::Wheel => LOCK_AXIS_WHEEL,
        Axis::Pan => LOCK_AXIS_PAN,
    }
}

impl Axis {
    /// The wire id.
    pub fn as_u16(self) -> (id: u16)
        ensures
            id == axis_id(self),
    {
        match self {
            Axis::X => LOCK_AXIS_X,
            Axis::Y => LOCK_AXIS_Y,
            Axis::Wheel => LOCK_AXIS_WHEEL,
            Axis::Pan => LOCK_AXIS_PAN,
        }
    }
}

/// Which edge or sign of a target a lock, catch or rewrite addresses.
#[derive(Clone, Copy, Debug, PartialEq, Eq, Hash, PartialOrd, Ord, Structural)]
pub enum Direction {
    /// Both signs (both edges).
    Both,
    /// The positive sign (a press edge; an endpoint's IN flow).
    Positive,
    /// The negative sign (a release edge; an endpoint's OUT flow).
    Negative,
    /// Along the bearing of the injection in flight.
    With,
    /// Against the bearing of the injection in flight.
    Against,
}

/// The wire byte of a [`Direction`].
pub open spec fn direction_byte(d: Direction) -> u8 {
    match d {
        Direction::Both => LOCK_DIR_BOTH,
        Direction::Positive => LOCK_DIR_POS,
        Direction::Negative => LOCK_DIR_NEG,
        Direction::With => LOCK_DIR_WITH,
        Direction::Against => LOCK_DIR_AGAINST,
    }
}

/// Whether a direction is measured against the bearing.
pub open spec fn is_relative(d: Direction) -> bool {
    d == Direction::With || d == Direction::Against
}

/// Whether a filter addressed `outer` takes an event addressed `inner`: `Both` takes any, any
/// direction takes `Both` (an event raised for both), and otherwise the two must agree.
pub open spec fn direction_admits(outer: Direction, inner: Direction) -> bool {
    outer == Direction::Both || inner == Direction::Both || outer == inner
}

impl Direction {
    /// An endpoint's IN flow: to the game PC.
    pub const IN: Direction = Direction::Positive;
    /// An endpoint's OUT flow: to the real device.
    pub const OUT: Direction = Direction::Negative;

    /// The wire byte.
    pub fn as_u8(self) -> (b: u8)
        ensures
            b == direction_byte(self),
    {
        match self {
            Direction::Both => LOCK_DIR_BOTH,
            Direction::Positive => LOCK_DIR_POS,
            Direction::Negative => LOCK_DIR_NEG,
            Direction::With => LOCK_DIR_WITH,
            Direction::Against => LOCK_DIR_AGAINST,
        }
    }

    /// Whether this direction is measured against the bearing.
    pub fn is_relative(self) -> (r: bool)
        ensures
            r == is_relative(self),
    {
        matches!(self, Direction::With | Direction::Against)
    }

    /// Whether a filter addressed `self` takes an event addressed `other`.
    pub fn admits(self, other: Direction) -> (r: bool)
        ensures
            r == direction_admits(self, other),
    {
        self == Direction::Both || other == Direction::Both || self == other
    }

    /// The sign a delta moves in.
    pub fn of_delta(d: i16) -> (r: Direction)
        ensures
            d > 0 ==> r == Direction::Positive,
            d < 0 ==> r == Direction::Negative,
            d == 0 ==> r == Direction::Both,
    {
        if d > 0 {
            Direction::Positive
        } else if d < 0 {
            Direction::Negative
        } else {
            Direction::Both
        }
    }
}

/// What a lock, scale or transform addresses: an axis or a momentary usage.
#[derive(Clone, Copy, Debug, PartialEq, Eq, Hash, Structural)]
pub enum LockTarget {
    Axis(Axis),
    Usage(Usage),
}

/// The `(class byte, id)` of a lock target.
pub open spec fn target_class_id(t: LockTarget) -> (u8, u16) {
    match t {
        LockTarget::Axis(a) => (LOCK_CLS_AXIS, axis_id(a)),
        LockTarget::Usage(u) => (class_byte(u.class), u.id),
    }
}

impl LockTarget {
    /// The `(class byte, id)` the wire carries.
    pub fn class_id(self) -> (r: (u8, u16))
        ensures
            r == target_class_id(self),
    {
        match self {
            LockTarget::Axis(a) => (LOCK_CLS_AXIS, a.as_u16()),
            LockTarget::Usage(u) => u.class_id(),
        }
    }
}

/// A whole group of lock targets.
#[derive(Clone, Copy, Debug, PartialEq, Eq, Hash, Structural)]
pub enum Blanket {
    /// X and Y.
    Aim,
    /// The wheel.
    Wheel,
    /// Every button.
    Buttons,
    /// Every key.
    Keys,
    /// Every media usage.
    Media,
}

/// What paces injected motion.
#[derive(Clone, Copy, Debug, PartialEq, Eq, Hash, Structural)]
pub enum EmitPace {
    /// The learnt native report rate (the default).
    Learned,
    /// The clone's `bInterval` poll rate.
    Interval,
    /// A fixed rate in Hz.
    Fixed(u16),
}

/// Which chip to reboot, and into what.
#[derive(Clone, Copy, Debug, PartialEq, Eq, Hash, Structural)]
pub enum RebootTarget {
    /// Restart the device chip into its app.
    DeviceRun,
    /// Restart the device chip into ROM download mode.
    DeviceDownload,
    /// Restart the host chip into its app.
    HostRun,
    /// Restart the host chip into ROM download mode.
    HostDownload,
}

/// The wire byte of a [`RebootTarget`]: bit 0 the chip (1 = host), bit 1 download mode.
pub open spec fn reboot_byte(t: RebootTarget) -> u8 {
    match t {
        RebootTarget::DeviceRun => 0,
        RebootTarget::HostRun => 1,
        RebootTarget::DeviceDownload => 2,
        RebootTarget::HostDownload => 3,
    }
}

impl RebootTarget {
    /// The wire byte.
    pub fn as_u8(self) -> (b: u8)
        ensures
            b == reboot_byte(self),
    {
        match self {
            RebootTarget::DeviceRun => 0,
            RebootTarget::HostRun => 1,
            RebootTarget::DeviceDownload => 2,
            RebootTarget::HostDownload => 3,
        }
    }
}

/// What kind of device a box clones.
#[derive(Clone, Copy, Debug, PartialEq, Eq, Hash, Structural)]
pub enum DeviceKind {
    /// No device attached.
    Unattached,
    /// A mouse.
    Mouse,
    /// A keyboard.
    Keyboard,
    /// A device with both collections.
    Composite,
    /// Anything else.
    Other,
}

/// The identity of the device a box clones.
#[derive(Clone, Debug)]
pub struct DeviceInfo {
    /// USB vendor id.
    pub vid: u16,
    /// USB product id.
    pub pid: u16,
    /// The device kind.
    pub kind: DeviceKind,
    /// The product string.
    pub product: String,
}

/// A box's firmware version, control protocol, base MAC and name.
#[derive(Clone, Debug)]
pub struct Version {
    /// The control-protocol version the box speaks.
    pub proto_ver: u8,
    /// Firmware major version.
    pub fw_major: u8,
    /// Firmware minor version.
    pub fw_minor: u8,
    /// Firmware patch version.
    pub fw_patch: u8,
    /// The device chip's base MAC.
    pub mac: [u8; 6],
    /// The box's human-readable name.
    pub name: String,
}

/// One serial port a medius box answers on.
#[derive(Clone, Debug)]
pub struct PortInfo {
    /// The port path (`/dev/ttyACM0`, `COM7`).
    pub path: String,
    /// USB vendor id.
    pub vid: u16,
    /// USB product id.
    pub pid: u16,
    /// The control adapter's serial string, if it serves one.
    pub serial: Option<String>,
}

/// A lifetime-counter snapshot.
#[derive(Clone, Copy, Debug, Default, PartialEq, Eq, Hash, Structural)]
pub struct CountersSnapshot {
    /// Frames written to the box.
    pub frames_tx: u64,
    /// Frames decoded from the box.
    pub frames_rx: u64,
    /// Frames dropped for a bad CRC.
    pub crc_drops: u64,
    /// Reconnects performed.
    pub reconnects: u64,
    /// Device-chip restarts and session releases recovered from.
    pub restarts: u64,
}

/// Which chip a firmware update writes.
#[derive(Clone, Copy, Debug, PartialEq, Eq, Hash, Structural)]
pub enum UpdateTarget {
    /// The device chip.
    Device,
    /// The host chip.
    Host,
}

/// The wire byte of an [`UpdateTarget`].
pub open spec fn update_target_byte(t: UpdateTarget) -> u8 {
    match t {
        UpdateTarget::Device => 0,
        UpdateTarget::Host => 1,
    }
}

impl UpdateTarget {
    /// The wire byte.
    pub fn as_u8(self) -> (b: u8)
        ensures
            b == update_target_byte(self),
    {
        match self {
            UpdateTarget::Device => 0,
            UpdateTarget::Host => 1,
        }
    }
}

/// The status byte of an update reply; the known values are the `UPD_*` constants.
#[derive(Clone, Copy, Debug, PartialEq, Eq, Hash, Structural)]
pub struct UpdateStatus(pub u8);

/// Progress through one staged image.
#[derive(Clone, Copy, Debug, PartialEq, Eq, Hash, Structural)]
pub struct UpdateProgress {
    /// The chip being written.
    pub target: UpdateTarget,
    /// Image bytes sent and acknowledged.
    pub sent: usize,
    /// Image length.
    pub total: usize,
}

} // verus!
