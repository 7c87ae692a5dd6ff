use vstd::prelude::*;

use chrono::Datelike;
use chrono::Timelike;

verus! {

/// A calendar timestamp held as plain fields: year, month, day, hour,
/// minute, second. Run records store the start and end times of a copy run
/// in this form; rendering it back to text is the output stage's concern.
#[derive(Clone, Copy, PartialEq, Eq, Structural, Debug)]
pub struct DateTime {
    pub year: i32,
    pub month: u32,
    pub day: u32,
    pub hour: u32,
    pub minute: u32,
    pub second: u32,
}

impl View for DateTime {
    type V = (int, int, int, int, int, int);

    open spec fn view(&self) -> (int, int, int, int, int, int) {
        (
            self.year as int,
            self.month as int,
            self.day as int,
            self.hour as int,
            self.minute as int,
            self.second as int,
        )
    }
}

impl DeepView for DateTime {
    type V = (int, int, int, int, int, int);

    open spec fn deep_view(&self) -> (int, int, int, int, int, int) {
        self.view()
    }
}

/// The timestamp a freshly reset run record holds before any header or
/// footer line fills it in: the Unix epoch.
pub open spec fn epoch_v() -> (int, int, int, int, int, int) {
    (1970int, 1int, 1int, 0int, 0int, 0int)
}

impl Default for DateTime {
    /// The Unix epoch, the placeholder timestamp of an empty record.
    fn default() -> (r: Self)
        ensures
            r@ == epoch_v(),
    {
        DateTime { year: 1970, month: 1, day: 1, hour: 0, minute: 0, second: 0 }
    }
}

/// The outcome of applying a strftime-style format to a timestamp string:
/// the calendar fields the text denotes under that format, or nothing when
/// the text does not match the format. The outcome depends on the two
/// arguments alone.
pub uninterp spec fn chrono_parse(s: Seq<char>, fmt: Seq<char>) -> Option<
    (int, int, int, int, int, int),
>;

/// Relies on chrono's `NaiveDateTime::parse_from_str` to match a timestamp
/// string against a format string, and on its `Datelike` and `Timelike`
/// accessors to read the parsed calendar fields. The result is a pure
/// function of the string and the format.
#[verifier::external_body]
pub(crate) fn parse_datetime(s: &str, fmt: &str) -> (r: Option<DateTime>)
    ensures
        match r {
            Some(dt) => chrono_parse(s@, fmt@) == Some(dt@),
            None => chrono_parse(s@, fmt@) is None,
        },
{
    match chrono::NaiveDateTime::parse_from_str(s, fmt) {
        Ok(dt) => Some(
            DateTime {
                year: dt.year(),
                month: dt.month(),
                day: dt.day(),
                hour: dt.hour(),
                minute: dt.minute(),
                second: dt.second(),
            },
        ),
        Err(_) => None,
    }
}

} // verus!
