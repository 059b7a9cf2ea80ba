//! What a directory says of an entry: its name, size, attributes and times.

use vstd::prelude::*;

verus! {

/// A date as represented in FAT32 on-disk structures.
#[derive(Debug, Copy, Clone, PartialEq, Eq, Structural)]
pub struct Date(pub u16);

/// Time as represented in FAT32 on-disk structures.
#[derive(Debug, Copy, Clone, PartialEq, Eq, Structural)]
pub struct Time(pub u16);

/// File attributes as represented in FAT32 on-disk structures.
#[derive(Debug, Copy, Clone, PartialEq, Eq, Structural)]
pub struct Attributes(pub u8);

/// A structure containing a date and time.
#[derive(Copy, Clone, Debug, PartialEq, Eq, Structural)]
pub struct Timestamp {
    pub time: Time,
    pub date: Date,
}

/// Metadata for a directory entry.
#[derive(Debug, Clone)]
pub struct Metadata {
    pub name: String,
    pub size: u32,
    pub attributes: Attributes,
    pub created: Timestamp,
    pub accessed: Date,
    pub last_modified: Timestamp,
}

/// The metadata of an entry with its name as a sequence of characters.
pub struct MetadataView {
    pub name: Seq<char>,
    pub size: u32,
    pub attributes: Attributes,
    pub created: Timestamp,
    pub accessed: Date,
    pub last_modified: Timestamp,
}

impl View for Metadata {
    type V = MetadataView;

    open spec fn view(&self) -> MetadataView {
        MetadataView {
            name: self.name@,
            size: self.size,
            attributes: self.attributes,
            created: self.created,
            accessed: self.accessed,
            last_modified: self.last_modified,
        }
    }
}

impl Default for Date {
    fn default() -> (r: Date)
        ensures
            r == Date(0),
    {
        Date(0)
    }
}

impl Default for Time {
    fn default() -> (r: Time)
        ensures
            r == Time(0),
    {
        Time(0)
    }
}

impl Default for Attributes {
    fn default() -> (r: Attributes)
        ensures
            r == Attributes(0),
    {
        Attributes(0)
    }
}

impl Default for Timestamp {
    fn default() -> (r: Timestamp)
        ensures
            r == (Timestamp { time: Time(0), date: Date(0) }),
    {
        Timestamp { time: Time(0), date: Date(0) }
    }
}

impl MetadataView {
    /// The metadata of an entry without a name, size, attributes or times.
    pub open spec fn blank() -> MetadataView {
        MetadataView {
            name: Seq::<char>::empty(),
            size: 0,
            attributes: Attributes(0),
            created: Timestamp { time: Time(0), date: Date(0) },
            accessed: Date(0),
            last_modified: Timestamp { time: Time(0), date: Date(0) },
        }
    }
}

impl Default for Metadata {
    fn default() -> (r: Metadata)
        ensures
            r@ == MetadataView::blank(),
    {
        Metadata {
            name: String::new(),
            size: 0,
            attributes: Attributes(0),
            created: Timestamp { time: Time(0), date: Date(0) },
            accessed: Date(0),
            last_modified: Timestamp { time: Time(0), date: Date(0) },
        }
    }
}

impl Date {
    /// The year: 1980 plus the seven bits from bit 9 up.
    pub open spec fn year_spec(self) -> int {
        1980 + self.0 as int / 512
    }

    /// The month: the four bits from bit 5 up.
    pub open spec fn month_spec(self) -> int {
        self.0 as int / 32 % 16
    }

    /// The day of the month: the low five bits.
    pub open spec fn day_spec(self) -> int {
        self.0 as int % 32
    }
}

impl Time {
    /// The hour: the five bits from bit 11 up.
    pub open spec fn hour_spec(self) -> int {
        self.0 as int / 2048
    }

    /// The minute: the six bits from bit 5 up.
    pub open spec fn minute_spec(self) -> int {
        self.0 as int / 32 % 64
    }

    /// The second: twice the low five bits.
    pub open spec fn second_spec(self) -> int {
        2 * (self.0 as int % 32)
    }
}

impl Timestamp {
    /// The calendar year. (The year is not offset. 2009 is 2009.)
    pub fn year(&self) -> (r: usize)
        ensures
            r == self.date.year_spec(),
            1980 <= r <= 2107,
    {
        let d: u16 = self.date.0;
        let y: u16 = (d >> 9) & 0b1111111;
        assert(y == d / 512 && y <= 127) by (bit_vector)
            requires
                y == (d >> 9) & 0b1111111,
        ;
        1980 + y as usize
    }

    /// The calendar month, starting at 1 for January. Always in range [1, 12]
    /// for a date that was written correctly.
    pub fn month(&self) -> (r: u8)
        ensures
            r == self.date.month_spec(),
            r <= 15,
    {
        let d: u16 = self.date.0;
        let m: u16 = (d >> 5) & 0xF;
        assert(m == d / 32 % 16 && m <= 15) by (bit_vector)
            requires
                m == (d >> 5) & 0xF,
        ;
        m as u8
    }

    /// The calendar day, starting at 1.
    pub fn day(&self) -> (r: u8)
        ensures
            r == self.date.day_spec(),
            r <= 31,
    {
        let d: u16 = self.date.0;
        let v: u16 = d & 0b11111;
        assert(v == d % 32 && v <= 31) by (bit_vector)
            requires
                v == d & 0b11111,
        ;
        v as u8
    }

    /// The 24-hour hour. Always in range [0, 24).
    pub fn hour(&self) -> (r: u8)
        ensures
            r == self.time.hour_spec(),
            r <= 31,
    {
        let t: u16 = self.time.0;
        let h: u16 = (t >> 11) & 0b11111;
        assert(h == t / 2048 && h <= 31) by (bit_vector)
            requires
                h == (t >> 11) & 0b11111,
        ;
        h as u8
    }

    /// The minute. Always in range [0, 60) for a time that was written correctly.
    pub fn minute(&self) -> (r: u8)
        ensures
            r == self.time.minute_spec(),
            r <= 63,
    {
        let t: u16 = self.time.0;
        let m: u16 = (t >> 5) & 0b111111;
        assert(m == t / 32 % 64 && m <= 63) by (bit_vector)
            requires
                m == (t >> 5) & 0b111111,
        ;
        m as u8
    }

    /// The second. The disk holds it in steps of two.
    pub fn second(&self) -> (r: u8)
        ensures
            r == self.time.second_spec(),
            r <= 62,
            r % 2 == 0,
    {
        let t: u16 = self.time.0;
        let s: u16 = t & 0b11111;
        assert(s == t % 32 && s <= 31) by (bit_vector)
            requires
                s == t & 0b11111,
        ;
        2 * (s as u8)
    }
}

impl Metadata {
    /// Whether the associated entry is read only.
    pub fn read_only(&self) -> (r: bool)
        ensures
            r == (self.attributes.0 % 2 == 1),
    {
        let a: u8 = self.attributes.0;
        assert((a & 0x01 != 0) == (a % 2 == 1)) by (bit_vector);
        a & 0x01 != 0
    }

    /// Whether the entry should be "hidden" from directory traversals.
    pub fn hidden(&self) -> (r: bool)
        ensures
            r == (self.attributes.0 / 2 % 2 == 1),
    {
        let a: u8 = self.attributes.0;
        assert((a & 0x02 != 0) == (a / 2 % 2 == 1)) by (bit_vector);
        a & 0x02 != 0
    }

    /// The timestamp when the entry was created.
    pub fn created(&self) -> (r: Timestamp)
        ensures
            r == self.created,
    {
        self.created
    }

    /// The day on which the entry was last accessed. The disk holds no time
    /// of day for it: the time of the result is midnight.
    pub fn accessed(&self) -> (r: Timestamp)
        ensures
            r == (Timestamp { date: self.accessed, time: Time(0) }),
    {
        Timestamp { date: self.accessed, time: Time(0) }
    }

    /// The timestamp when the entry was last modified.
    pub fn modified(&self) -> (r: Timestamp)
        ensures
            r == self.last_modified,
    {
        self.last_modified
    }
}

} // verus!
