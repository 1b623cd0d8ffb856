//! The alarm of the real-time clock: which minutes it matches, and its four
//! register values.
//!
//! Each register compares one field of the calendar, if bit 7 enables it. At
//! each change of minute the alarm goes off if all enabled fields match. With
//! no field enabled it never goes off, so such an alarm is refused.
use vstd::prelude::*;

verus! {

/// What an alarm compares; a field that is `None` is not compared.
#[derive(Clone, Copy, PartialEq, Eq, Debug)]
pub struct Alarm {
    /// Minute, up to 59.
    pub minute: Option<u8>,
    /// Hour, up to 23.
    pub hour: Option<u8>,
    /// Day of the week, up to 6.
    pub weekday: Option<u8>,
    /// Day of the month, from 1 to 31.
    pub day: Option<u8>,
}

impl Default for Alarm {
    fn default() -> (r: Self)
        ensures
            r == (Alarm { minute: None, hour: None, weekday: None, day: None }),
    {
        Alarm { minute: None, hour: None, weekday: None, day: None }
    }
}

impl Alarm {
    /// Every day at this time.
    pub fn daily_at(hour: u8, minute: u8) -> (r: Alarm)
        ensures
            r == (Alarm { minute: Some(minute), hour: Some(hour), weekday: None, day: None }),
    {
        Alarm { minute: Some(minute), hour: Some(hour), weekday: None, day: None }
    }

    /// Every hour at this minute.
    pub fn hourly_at(minute: u8) -> (r: Alarm)
        ensures
            r == (Alarm { minute: Some(minute), hour: None, weekday: None, day: None }),
    {
        Alarm { minute: Some(minute), hour: None, weekday: None, day: None }
    }

    /// Whether any field is compared.
    pub open spec fn compares(self) -> bool {
        self.minute is Some || self.hour is Some || self.weekday is Some || self.day is Some
    }

    /// What is wrong with it, if anything.
    pub open spec fn fault(self) -> Option<AlarmError> {
        if !self.compares() {
            Some(AlarmError::NoFieldEnabled)
        } else if !within(self.minute, 0, 59) {
            Some(AlarmError::MinuteOutOfRange)
        } else if !within(self.hour, 0, 23) {
            Some(AlarmError::HourOutOfRange)
        } else if !within(self.weekday, 0, 6) {
            Some(AlarmError::WeekdayOutOfRange)
        } else if !within(self.day, 1, 31) {
            Some(AlarmError::DayOutOfRange)
        } else {
            None
        }
    }

    /// The register values.
    pub open spec fn registers(self) -> AlarmRegs {
        AlarmRegs {
            minute: register(self.minute),
            hour: register(self.hour),
            weekday: register(self.weekday),
            day: register(self.day),
        }
    }

    /// Whether the alarm matches this minute.
    pub open spec fn matches_at(self, minute: u8, hour: u8, weekday: u8, day: u8) -> bool {
        &&& self.compares()
        &&& agrees(self.minute, minute)
        &&& agrees(self.hour, hour)
        &&& agrees(self.weekday, weekday)
        &&& agrees(self.day, day)
    }
}

/// A field that is compared lies in this range.
pub open spec fn within(field: Option<u8>, lo: u8, hi: u8) -> bool {
    field matches Some(v) ==> lo <= v <= hi
}

/// A field that is compared has this value.
pub open spec fn agrees(field: Option<u8>, value: u8) -> bool {
    field matches Some(v) ==> v == value
}

/// The register of a field.
pub open spec fn register(field: Option<u8>) -> u8 {
    match field {
        None => 0,
        Some(v) => (AE + v) as u8,
    }
}

/// Why an alarm is refused.
#[derive(Clone, Copy, PartialEq, Eq, Structural, Debug)]
pub enum AlarmError {
    /// No such minute.
    MinuteOutOfRange,
    /// No such hour.
    HourOutOfRange,
    /// No such day of the week.
    WeekdayOutOfRange,
    /// No such day of the month.
    DayOutOfRange,
    /// It would never go off.
    NoFieldEnabled,
}

/// The field is compared.
pub const AE: u8 = 0x80;

/// The register values of an alarm.
#[derive(Clone, Copy, PartialEq, Eq, Structural, Debug)]
pub struct AlarmRegs {
    /// Minute.
    pub minute: u8,
    /// Hour.
    pub hour: u8,
    /// Day of the week.
    pub weekday: u8,
    /// Day of the month.
    pub day: u8,
}

/// Checks an alarm and turns it into register values.
pub(crate) fn encode_alarm(alarm: &Alarm) -> (r: Result<AlarmRegs, AlarmError>)
    ensures
        match alarm.fault() {
            Some(e) => r == Err::<AlarmRegs, AlarmError>(e),
            None => r == Ok::<AlarmRegs, AlarmError>(alarm.registers()),
        },
{
    if alarm.minute.is_none() && alarm.hour.is_none() && alarm.weekday.is_none()
        && alarm.day.is_none() {
        return Err(AlarmError::NoFieldEnabled);
    }
    let minute: u8 = match encode_field(alarm.minute, 0, 59) {
        Some(v) => v,
        None => {
            return Err(AlarmError::MinuteOutOfRange);
        },
    };
    let hour: u8 = match encode_field(alarm.hour, 0, 23) {
        Some(v) => v,
        None => {
            return Err(AlarmError::HourOutOfRange);
        },
    };
    let weekday: u8 = match encode_field(alarm.weekday, 0, 6) {
        Some(v) => v,
        None => {
            return Err(AlarmError::WeekdayOutOfRange);
        },
    };
    let day: u8 = match encode_field(alarm.day, 1, 31) {
        Some(v) => v,
        None => {
            return Err(AlarmError::DayOutOfRange);
        },
    };
    Ok(AlarmRegs { minute, hour, weekday, day })
}

fn encode_field(value: Option<u8>, lo: u8, hi: u8) -> (r: Option<u8>)
    requires
        hi < AE,
    ensures
        r == if within(value, lo, hi) {
            Some(register(value))
        } else {
            None
        },
{
    match value {
        None => Some(0),
        Some(v) => if v >= lo && v <= hi {
            Some(AE + v)
        } else {
            None
        },
    }
}

/// Whether an alarm matches this minute of the calendar.
pub fn alarm_matches(alarm: &Alarm, minute: u8, hour: u8, weekday: u8, day: u8) -> (r: bool)
    ensures
        r == alarm.matches_at(minute, hour, weekday, day),
{
    let any_enabled: bool = alarm.minute.is_some() || alarm.hour.is_some()
        || alarm.weekday.is_some() || alarm.day.is_some();
    any_enabled && field_agrees(alarm.minute, minute) && field_agrees(alarm.hour, hour)
        && field_agrees(alarm.weekday, weekday) && field_agrees(alarm.day, day)
}

fn field_agrees(field: Option<u8>, value: u8) -> (r: bool)
    ensures
        r == agrees(field, value),
{
    match field {
        None => true,
        Some(v) => v == value,
    }
}

/// An alarm that is accepted can go off: it matches some minute of the
/// calendar. One that compares nothing matches none.
pub proof fn lemma_accepted_can_match(alarm: Alarm)
    ensures
        alarm.fault() is None ==> exists|minute: u8, hour: u8, weekday: u8, day: u8|
            {
                &&& minute <= 59
                &&& hour <= 23
                &&& weekday <= 6
                &&& 1 <= day <= 31
                &&& #[trigger] alarm.matches_at(minute, hour, weekday, day)
            },
        !alarm.compares() ==> forall|minute: u8, hour: u8, weekday: u8, day: u8|
            !#[trigger] alarm.matches_at(minute, hour, weekday, day),
{
    if alarm.fault() is None {
        let minute = alarm.minute.unwrap_or(0);
        let hour = alarm.hour.unwrap_or(0);
        let weekday = alarm.weekday.unwrap_or(0);
        let day = alarm.day.unwrap_or(1);
        assert(alarm.matches_at(minute, hour, weekday, day));
    }
}

/// The registers tell the alarm.
pub proof fn lemma_alarm_told(a: Alarm, b: Alarm)
    requires
        a.fault() is None,
        b.fault() is None,
        a.registers() == b.registers(),
    ensures
        a == b,
{
    lemma_field_told(a.minute, b.minute);
    lemma_field_told(a.hour, b.hour);
    lemma_field_told(a.weekday, b.weekday);
    lemma_field_told(a.day, b.day);
}

proof fn lemma_field_told(a: Option<u8>, b: Option<u8>)
    requires
        within(a, 0, 59),
        within(b, 0, 59),
        register(a) == register(b),
    ensures
        a == b,
{
}

/// An alarm is accepted exactly if it compares something and each field that it
/// compares exists on a clock: minutes to 59, hours to 23, days of the week to 6,
/// days from 1 to 31.
pub proof fn lemma_accepted(alarm: Alarm)
    ensures
        alarm.fault() is None <==> {
            &&& alarm.minute is Some || alarm.hour is Some || alarm.weekday is Some
                || alarm.day is Some
            &&& alarm.minute matches Some(v) ==> v < 60
            &&& alarm.hour matches Some(v) ==> v < 24
            &&& alarm.weekday matches Some(v) ==> v < 7
            &&& alarm.day matches Some(v) ==> 1 <= v < 32
        },
{
}

/// What is wrong with a refused alarm is what is reported.
pub proof fn lemma_refused(alarm: Alarm)
    ensures
        match alarm.fault() {
            None => true,
            Some(AlarmError::NoFieldEnabled) => alarm.minute is None && alarm.hour is None
                && alarm.weekday is None && alarm.day is None,
            Some(AlarmError::MinuteOutOfRange) => alarm.minute matches Some(v) && v >= 60,
            Some(AlarmError::HourOutOfRange) => alarm.hour matches Some(v) && v >= 24,
            Some(AlarmError::WeekdayOutOfRange) => alarm.weekday matches Some(v) && v >= 7,
            Some(AlarmError::DayOutOfRange) => alarm.day matches Some(v) && (v == 0 || v >= 32),
        },
{
}

} // verus!
