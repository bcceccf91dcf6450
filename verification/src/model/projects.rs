use vstd::prelude::*;

verus! {

/// A project: the unit that mapping rules and dependency relations belong
/// to. The identifier is the twelve bytes of its database key, once it has
/// one; the time of its creation is counted in milliseconds since the start
/// of 1970, in universal time.
#[derive(Debug)]
pub struct Project {
    pub id: Option<[u8; 12]>,
    pub name: String,
    pub created_at: i64,
}

/// A project as plain values.
pub struct ProjectView {
    pub id: Option<Seq<u8>>,
    pub name: Seq<char>,
    pub created_at: i64,
}

impl View for Project {
    type V = ProjectView;

    open spec fn view(&self) -> ProjectView {
        ProjectView {
            id: match self.id {
                Some(bytes) => Some(bytes@),
                None => None,
            },
            name: self.name@,
            created_at: self.created_at,
        }
    }
}

/// The pattern in which times are written: year, month and day, then hour,
/// minute and second.
pub open spec fn time_pattern() -> Seq<char> {
    "%Y-%m-%d %H:%M:%S"@
}

/// The text of a point in time, given in milliseconds since the start of
/// 1970, written in universal time after a pattern.
pub uninterp spec fn utc_time_text(millis: i64, pattern: Seq<char>) -> Seq<char>;

/// Calls `bson::DateTime::from_millis(..).to_chrono().format(..)`: the
/// calendar date and clock time of a point in time, in universal time. The
/// contract names the text, which depends on the two arguments alone. The
/// outside function fails on patterns that it does not know; `requires`
/// admits the one pattern that this library writes times in.
#[verifier::external_body]
pub(crate) fn utc_time(millis: i64, pattern: &str) -> (text: String)
    requires
        pattern@ == time_pattern(),
    ensures
        text@ == utc_time_text(millis, pattern@),
{
    format!("{}", bson::DateTime::from_millis(millis).to_chrono().format(pattern))
}

} // verus!
