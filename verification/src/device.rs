//! One backlight device, and the flip of its power state.
//!
//! A [`Device`] is a directory and the control file in it. Nothing here
//! touches a file: [`Device::toggle`] takes what was read from the control
//! file and answers with the [`Flip`] to write back, and [`Flip::finish`]
//! takes what became of the write.

use crate::decimal::{decimal, lemma_render_then_parse, parse_i32, parsed, render_i32};
use crate::error::Error;
use crate::location::{is_segment, join, joined, lemma_join_segment, needs_separator, SEPARATOR};
use vstd::prelude::*;

verus! {

/// The directory under which backlight devices are looked for by default.
pub const BACKLIGHT_PATH: &'static str = "/sys/class/backlight";

/// The default name of the file that controls the power of a device.
pub const BL_POWER: &'static str = "bl_power";

/// The state that a toggle leaves behind: `1` where it found `0`, and `0`
/// where it found anything else.
pub open spec fn flipped(value: i32) -> i32 {
    if value == 0 {
        1
    } else {
        0
    }
}

/// A single backlight device that can be toggled on and off.
#[derive(Debug)]
pub struct Device {
    path: String,
    bl_power: String,
}

/// What a [`Device`] holds, as mathematical values.
pub struct DeviceView {
    /// The device's own directory.
    pub path: Seq<char>,
    /// The control file of the device.
    pub bl_power: Seq<char>,
}

impl DeviceView {
    /// The device in the directory `path` whose control file is called `name`.
    pub open spec fn at(path: Seq<char>, name: Seq<char>) -> DeviceView {
        DeviceView { path, bl_power: joined(path, name) }
    }

    /// What holds of every device: its control file is where some name leads
    /// from its directory.
    pub open spec fn wf(self) -> bool {
        exists|name: Seq<char>| self.bl_power == #[trigger] joined(self.path, name)
    }

    /// Whether the control file lies directly in the device's directory: it
    /// is the directory, a separator where the directory does not end with
    /// one, and one more segment.
    pub open spec fn control_in_directory(self) -> bool {
        exists|name: Seq<char>|
            #![trigger is_segment(name)]
            is_segment(name) && self.bl_power == if needs_separator(self.path) {
                self.path.push(SEPARATOR) + name
            } else {
                self.path + name
            }
    }
}

impl View for Device {
    type V = DeviceView;

    closed spec fn view(&self) -> DeviceView {
        DeviceView { path: self.path@, bl_power: self.bl_power@ }
    }
}

/// The location of the control file of the device in the directory `path`.
pub fn bl_power(path: &str) -> (location: String)
    ensures
        location@ == joined(path@, BL_POWER@),
{
    join(path, BL_POWER)
}

/// Establishes what the text of [`BL_POWER`] is: a single segment.
pub proof fn lemma_default_name()
    ensures
        BL_POWER@ == seq!['b', 'l', '_', 'p', 'o', 'w', 'e', 'r'],
        is_segment(BL_POWER@),
{
    reveal_strlit("bl_power");
    assert(BL_POWER@ =~= seq!['b', 'l', '_', 'p', 'o', 'w', 'e', 'r']);
}

impl Device {
    #[verifier::type_invariant]
    spec fn well_formed(&self) -> bool {
        exists|name: Seq<char>| self.bl_power@ == #[trigger] joined(self.path@, name)
    }

    /// Creates the device located at `path`, with the control file of the
    /// default name in it. No file is touched.
    pub fn new(path: &str) -> (device: Device)
        ensures
            device@ == DeviceView::at(path@, BL_POWER@),
            device@.wf(),
            device@.control_in_directory(),
    {
        let device = Device::make(String::from_str(path), bl_power(path), Ghost(BL_POWER@));
        proof {
            lemma_default_name();
            lemma_join_segment(path@, BL_POWER@);
        }
        device
    }

    /// Creates the device located at `path` whose control file is called
    /// `bl_power`, or has the default name where `bl_power` is `None`. No file
    /// is touched.
    ///
    /// The name is joined to `path` whatever it holds; the control file lies
    /// directly in `path` where the name is a single segment.
    pub fn custom(path: &str, bl_power: Option<&str>) -> (device: Device)
        ensures
            device@ == DeviceView::at(
                path@,
                match bl_power {
                    Some(name) => name@,
                    None => BL_POWER@,
                },
            ),
            device@.wf(),
            bl_power matches Some(name) ==> (is_segment(name@)
                ==> device@.control_in_directory()),
            bl_power is None ==> device@.control_in_directory(),
    {
        match bl_power {
            Some(name) => {
                let device = Device::make(String::from_str(path), join(path, name), Ghost(name@));
                proof {
                    if is_segment(name@) {
                        lemma_join_segment(path@, name@);
                    }
                }
                device
            },
            None => Device::new(path),
        }
    }

    /// Puts a directory and the control file that `name` leads to together.
    fn make(path: String, bl_power: String, Ghost(name): Ghost<Seq<char>>) -> (device: Device)
        requires
            bl_power@ == joined(path@, name),
        ensures
            device@ == DeviceView::at(path@, name),
            device@.wf(),
    {
        proof {
            let device = Device { path, bl_power };
            assert(device.bl_power@ == joined(device.path@, name));
        }
        let device = Device { path, bl_power };
        assert(device@.bl_power == joined(device@.path, name));
        device
    }

    /// Returns the path of the device.
    pub fn path(&self) -> (path: &str)
        ensures
            path@ == self@.path,
    {
        self.path.as_str()
    }

    /// Returns the path of the device's power control file.
    pub fn bl_power(&self) -> (location: &str)
        ensures
            location@ == self@.bl_power,
            self@.wf(),
    {
        proof {
            use_type_invariant(self);
            let name = choose|name: Seq<char>| self.bl_power@ == #[trigger] joined(self.path@, name);
            assert(self@.bl_power == joined(self@.path, name));
        }
        self.bl_power.as_str()
    }

    /// Toggles the state of the device on and off, as far as that can be
    /// done without touching a file.
    ///
    /// `read` is what came of reading the whole control file, at
    /// [`Device::bl_power`], as text. Where the read failed, its cause comes
    /// back as [`Error::Io`]. Where the text is no integer, the toggle fails
    /// with [`Error::MalformedData`]. Otherwise the result is the [`Flip`]
    /// to carry out: the new state, which is 1 if the control file held 0 and
    /// 0 if it held anything else, and its text, to be written to the same
    /// control file in place of all that it held.
    ///
    /// Between the read and the write nothing is locked, so another writer
    /// of the same control file can get in between.
    pub fn toggle<E>(&self, read: Result<String, E>) -> (flip: Result<Flip, Error<E>>)
        ensures
            match read {
                Err(cause) => flip == Err::<Flip, Error<E>>(Error::Io(cause)),
                Ok(text) => match parsed(text@) {
                    None => flip == Err::<Flip, Error<E>>(Error::MalformedData),
                    Some(old_value) => flip matches Ok(f) && f@ == FlipView::of(
                        self@.bl_power,
                        flipped(old_value),
                    ),
                },
            },
    {
        let old_value: i32 = match read_i32(read) {
            Ok(old_value) => old_value,
            Err(error) => {
                return Err(error);
            },
        };
        let new_value: i32 = if old_value == 0 {
            1
        } else {
            0
        };
        Ok(
            Flip {
                location: self.bl_power.clone(),
                text: render_i32(new_value),
                value: new_value,
            },
        )
    }
}

/// The integer in the text that was read from a control file.
///
/// A failed read comes back as [`Error::Io`] with its cause; text that is no
/// integer, once the white space around it is gone, gives
/// [`Error::MalformedData`].
pub fn read_i32<E>(read: Result<String, E>) -> (value: Result<i32, Error<E>>)
    ensures
        value == match read {
            Err(cause) => Err::<i32, Error<E>>(Error::Io(cause)),
            Ok(text) => match parsed(text@) {
                Some(v) => Ok(v),
                None => Err(Error::MalformedData),
            },
        },
{
    match read {
        Err(cause) => Err(Error::Io(cause)),
        Ok(text) => match parse_i32(text.as_str()) {
            Some(v) => Ok(v),
            None => Err(Error::MalformedData),
        },
    }
}

/// The second half of a toggle: what is to be written to which control file,
/// and the state that the device is in once that is done.
#[derive(Debug)]
pub struct Flip {
    location: String,
    text: String,
    value: i32,
}

/// What a [`Flip`] holds, as mathematical values.
pub struct FlipView {
    /// The control file to write to.
    pub location: Seq<char>,
    /// The text that replaces the whole of the control file.
    pub text: Seq<char>,
    /// The power state that the text stands for.
    pub value: i32,
}

impl FlipView {
    /// The flip that puts the control file at `location` into the state
    /// `value`.
    pub open spec fn of(location: Seq<char>, value: i32) -> FlipView {
        FlipView { location, text: decimal(value as int), value }
    }

    /// What holds of every flip: the new state is 0 or 1, and the text is its
    /// decimal form.
    pub open spec fn wf(self) -> bool {
        &&& self.value == 0 || self.value == 1
        &&& self.text == decimal(self.value as int)
    }
}

impl View for Flip {
    type V = FlipView;

    closed spec fn view(&self) -> FlipView {
        FlipView { location: self.location@, text: self.text@, value: self.value }
    }
}

impl Flip {
    #[verifier::type_invariant]
    spec fn well_formed(&self) -> bool {
        self@.wf()
    }

    /// The control file to write to.
    pub fn location(&self) -> (location: &str)
        ensures
            location@ == self@.location,
    {
        self.location.as_str()
    }

    /// The text to write: it replaces all that the control file holds, and
    /// is `0` or `1` with nothing before or after it.
    pub fn text(&self) -> (text: &str)
        ensures
            text@ == self@.text,
            self@.wf(),
            text@ == seq!['0'] || text@ == seq!['1'],
    {
        proof {
            use_type_invariant(self);
            assert(decimal(0) == seq!['0']);
            assert(decimal(1) == seq!['1']);
        }
        self.text.as_str()
    }

    /// The power state of the device once the text is written.
    pub fn value(&self) -> (value: i32)
        ensures
            value == self@.value,
            self@.wf(),
    {
        proof {
            use_type_invariant(self);
        }
        self.value
    }

    /// Ends the toggle, given what came of the write.
    ///
    /// A failed write comes back as [`Error::Io`] with its cause, and
    /// nothing is tried again or undone. After a write that succeeded the
    /// result is the new state of the device.
    pub fn finish<E>(self, written: Result<(), E>) -> (new_state: Result<i32, Error<E>>)
        ensures
            new_state == match written {
                Ok(_) => Ok::<i32, Error<E>>(self@.value),
                Err(cause) => Err(Error::Io(cause)),
            },
    {
        match written {
            Ok(_) => Ok(self.value),
            Err(cause) => Err(Error::Io(cause)),
        }
    }
}

/// The text that a control file holds after a toggle that met no failure,
/// where it held `text` before. `None` where `text` is no integer: the
/// toggle fails and writes nothing.
pub open spec fn toggled(text: Seq<char>) -> Option<Seq<char>> {
    match parsed(text) {
        Some(old_value) => Some(decimal(flipped(old_value) as int)),
        None => None,
    }
}

/// Law: what a toggle writes is text that the next toggle reads as the state
/// that the first one returned. So a toggle can always follow a toggle.
pub proof fn lemma_toggle_reads_back(text: Seq<char>)
    requires
        parsed(text) is Some,
    ensures
        toggled(text) is Some,
        parsed(toggled(text)->0) == Some(flipped(parsed(text)->0)),
{
    lemma_render_then_parse(flipped(parsed(text)->0));
}

/// Law: toggling twice. A control file that holds `0` holds `1` after one
/// toggle and `0` after two; one that holds any other integer holds `0`
/// after one toggle and `1` after two. Two toggles bring the states 0 and 1
/// back to where they were.
pub proof fn lemma_toggle_twice(text: Seq<char>)
    requires
        parsed(text) is Some,
    ensures
        parsed(text) == Some(0i32) ==> toggled(text) == Some(seq!['1']) && toggled(seq!['1'])
            == Some(seq!['0']),
        parsed(text) != Some(0i32) ==> toggled(text) == Some(seq!['0']) && toggled(seq!['0'])
            == Some(seq!['1']),
        parsed(text) == Some(0i32) || parsed(text) == Some(1i32) ==> parsed(
            toggled(toggled(text)->0)->0,
        ) == parsed(text),
{
    assert(decimal(0) == seq!['0']);
    assert(decimal(1) == seq!['1']);
    lemma_render_then_parse(0);
    lemma_render_then_parse(1);
}

} // verus!
