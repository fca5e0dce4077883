//! Mailbox settings domain: out-of-office (automatic replies), master
//! categories, and the read-only working-hours/timezone/date-format block,
//! shaped like Microsoft Graph's `mailboxSettings` and `outlookCategory`.
use vstd::prelude::*;

verus! {

/// Graph `dateTimeTimeZone`: a wall-clock string plus the zone it is read in.
#[derive(Debug, Default, PartialEq, Eq)]
pub struct DateTimeTimeZone {
    pub date_time: String,
    pub time_zone: String,
}

impl Clone for DateTimeTimeZone {
    fn clone(&self) -> (r: Self)
        ensures
            r == *self,
    {
        DateTimeTimeZone { date_time: self.date_time.clone(), time_zone: self.time_zone.clone() }
    }
}

fn clone_opt_dt(o: &Option<DateTimeTimeZone>) -> (r: Option<DateTimeTimeZone>)
    ensures
        r == *o,
{
    match o {
        Some(d) => Some(d.clone()),
        None => None,
    }
}

/// Graph `automaticRepliesSetting`. `status` is `Disabled`, `AlwaysEnabled`
/// or `Scheduled`; `external_audience` is `None`, `ContactsOnly` or `All`.
/// The two reply bodies are HTML and are sanitized before leaving the app
/// (see [`AutomaticReplies::sanitized`]).
#[derive(Debug, Default, PartialEq, Eq)]
pub struct AutomaticReplies {
    pub status: String,
    pub external_audience: String,
    pub scheduled_start_date_time: Option<DateTimeTimeZone>,
    pub scheduled_end_date_time: Option<DateTimeTimeZone>,
    pub internal_reply_message: String,
    pub external_reply_message: String,
}

impl Clone for AutomaticReplies {
    fn clone(&self) -> (r: Self)
        ensures
            r == *self,
    {
        AutomaticReplies {
            status: self.status.clone(),
            external_audience: self.external_audience.clone(),
            scheduled_start_date_time: clone_opt_dt(&self.scheduled_start_date_time),
            scheduled_end_date_time: clone_opt_dt(&self.scheduled_end_date_time),
            internal_reply_message: self.internal_reply_message.clone(),
            external_reply_message: self.external_reply_message.clone(),
        }
    }
}

impl AutomaticReplies {
    /// A copy with both reply bodies passed through the shared sanitizer, so
    /// no unsanitized HTML is ever stored or sent to Graph. Every other field
    /// is unchanged.
    pub fn sanitized(&self) -> (r: AutomaticReplies)
        ensures
            r.internal_reply_message@ == crate::sanitize::sanitized(self.internal_reply_message@),
            r.external_reply_message@ == crate::sanitize::sanitized(self.external_reply_message@),
            r.status == self.status,
            r.external_audience == self.external_audience,
            r.scheduled_start_date_time == self.scheduled_start_date_time,
            r.scheduled_end_date_time == self.scheduled_end_date_time,
    {
        AutomaticReplies {
            status: self.status.clone(),
            external_audience: self.external_audience.clone(),
            scheduled_start_date_time: clone_opt_dt(&self.scheduled_start_date_time),
            scheduled_end_date_time: clone_opt_dt(&self.scheduled_end_date_time),
            internal_reply_message: crate::sanitize::sanitize_html(self.internal_reply_message.as_str()),
            external_reply_message: crate::sanitize::sanitize_html(self.external_reply_message.as_str()),
        }
    }
}

/// Graph `workingHours` (read-only here).
#[derive(Debug, Clone, Default, PartialEq, Eq)]
pub struct WorkingHoursInfo {
    pub days_of_week: Vec<String>,
    pub start_time: String,
    pub end_time: String,
    pub time_zone: Option<NamedTimeZone>,
}

#[derive(Debug, Clone, Default, PartialEq, Eq)]
pub struct NamedTimeZone {
    pub name: String,
}

#[derive(Debug, Clone, Default, PartialEq, Eq)]
pub struct LocaleInfo {
    pub locale: String,
    pub display_name: String,
}

/// The `GET /me/mailboxSettings` payload (the subset read here).
#[derive(Debug, Clone, Default)]
pub struct MailboxSettings {
    pub automatic_replies_setting: AutomaticReplies,
    pub time_zone: String,
    pub date_format: String,
    pub time_format: String,
    pub working_hours: Option<WorkingHoursInfo>,
    pub language: Option<LocaleInfo>,
}

/// Graph `outlookCategory`: `color` is a preset constant (`preset0` to
/// `preset24`, or `None`).
#[derive(Debug, Clone, Default, PartialEq, Eq)]
pub struct MasterCategory {
    pub id: String,
    pub display_name: String,
    pub color: String,
}

/// The Graph presets offered in the category picker: a curated
/// brass/verdigris family. Reds (`preset0/9/15/24`) and everything else are
/// deliberately excluded.
pub const OFFERED_PRESETS: [&'static str; 6] = [
    "preset1",
    "preset3",
    "preset2",
    "preset5",
    "preset4",
    "preset20",
];

pub open spec fn offered_presets() -> Seq<Seq<char>> {
    seq!["preset1"@, "preset3"@, "preset2"@, "preset5"@, "preset4"@, "preset20"@]
}

/// Whether a preset is one a category may be created or recolored with.
pub fn is_offered_preset(color: &str) -> (r: bool)
    ensures
        r == offered_presets().contains(color@),
{
    let presets: [&str; 6] = ["preset1", "preset3", "preset2", "preset5", "preset4", "preset20"];
    let c = crate::text::chars_of(color);
    let mut i: usize = 0;
    while i < 6
        invariant
            i <= 6,
            c@ == color@,
            forall|j: int| 0 <= j < 6 ==> (#[trigger] presets@[j])@ == offered_presets()[j],
            forall|j: int| 0 <= j < i ==> offered_presets()[j] != color@,
        decreases 6 - i,
    {
        let p = crate::text::chars_of(presets[i]);
        if crate::text::chars_equal(p.as_slice(), c.as_slice()) {
            assert(offered_presets()[i as int] == color@);
            return true;
        }
        i = i + 1;
    }
    false
}

} // verus!
verus! {

/// The color check that precedes creating or recoloring a category.
pub fn check_category_color(color: &str) -> (r: Result<(), String>)
    ensures
        r is Ok <==> offered_presets().contains(color@),
        r matches Err(e) ==> e@ == "unsupported category color: "@ + color@,
{
    if is_offered_preset(color) {
        Ok(())
    } else {
        let mut m = crate::text::chars_of("unsupported category color: ");
        crate::text::append_chars(&mut m, crate::text::chars_of(color).as_slice());
        Err(crate::text::string_of(m.as_slice()))
    }
}

/// What the settings pane and the category picker show: the fresh read when
/// it succeeded; offline, the cached copy; the read's error only when
/// nothing is cached.
pub fn fresh_or_cached<T>(fresh: Result<T, String>, cached: Option<T>) -> (r: Result<T, String>)
    ensures
        match fresh {
            Ok(v) => r == Ok::<T, String>(v),
            Err(e) => match cached {
                Some(c) => r == Ok::<T, String>(c),
                None => r == Err::<T, String>(e),
            },
        },
{
    match fresh {
        Ok(v) => Ok(v),
        Err(e) => match cached {
            Some(c) => Ok(c),
            None => Err(e),
        },
    }
}

} // verus!
