//! The plain data records the surrounding application stores and
//! serves; the annotator itself never inspects them.

use vstd::prelude::*;

verus! {

/// Where an article record came from.
#[derive(Debug, Clone)]
pub enum Origin {
    Imported,
    Synced,
    Local,
}

/// The category a media item is filed under.
#[derive(Debug, Clone, PartialEq, Eq)]
pub enum MediaCategory {
    Photography,
    VisualArt,
    Video,
    JSchool,
}

/// Whether a media item belongs to the personal or the professional
/// side of the site.
#[derive(Debug, Clone, PartialEq, Eq)]
pub enum MediaContext {
    Personal,
    Professional,
}

/// The kind of a creative-writing work.
#[derive(Debug, Clone, PartialEq, Eq)]
pub enum CreativeType {
    Story,
    Novel,
    Poetry,
}

/// A bare row count, as returned by count queries.
#[derive(Debug, Clone)]
pub struct ModelCount {
    pub count: i64,
}

/// The claims carried by an admin session token: the subject and the
/// expiry timestamp.
pub struct Claims {
    pub sub: String,
    pub exp: usize,
}

impl Claims {
    /// A claims value for the given subject, expiring at `exp`.
    pub fn new(sub: String, exp: usize) -> (r: Claims)
        ensures
            r.sub == sub,
            r.exp == exp,
    {
        Claims { sub, exp }
    }
}

} // verus!
