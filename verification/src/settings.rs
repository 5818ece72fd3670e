//! User settings and the two values derived from them for backend global
//! state: the enlarged internal result cap and the combined sort code.

use vstd::prelude::*;

verus! {

/// The three user options: the result cap (1 to 250, 50 by default), the
/// sort field (13 fields, name first), and the sort direction (ascending or
/// descending).
#[derive(Clone, Copy, Debug, PartialEq, Eq, Structural)]
pub struct Settings {
    pub max_results: u32,
    pub sort_by: u32,
    pub sort_order: u32,
}

impl Settings {
    /// Well-formed settings: the cap within its schema bounds, field and
    /// direction within the backend's enumerations.
    pub open spec fn wf(&self) -> bool {
        &&& 1 <= self.max_results <= 250
        &&& self.sort_by <= 12
        &&& self.sort_order <= 1
    }

    /// Settings from checked values.
    pub fn new(max_results: u32, sort_by: u32, sort_order: u32) -> (s: Settings)
        requires
            1 <= max_results <= 250,
            sort_by <= 12,
            sort_order <= 1,
        ensures
            s.wf(),
            s.max_results == max_results,
            s.sort_by == sort_by,
            s.sort_order == sort_order,
    {
        Settings { max_results, sort_by, sort_order }
    }

    /// Settings as loaded from the host's raw option values: an absent
    /// value falls back to its default, as does a value outside the schema
    /// bounds, which the host's configuration form enforces.
    pub fn from_values(
        max_results: Option<i64>,
        sort_by: Option<i64>,
        sort_order: Option<i64>,
    ) -> (s: Settings)
        ensures
            s.wf(),
            s.max_results == spec_loaded_max(max_results),
            s.sort_by == spec_loaded_sort_by(sort_by),
            s.sort_order == spec_loaded_sort_order(sort_order),
    {
        let max: u32 = match max_results {
            Some(v) => if 1 <= v && v <= 250 {
                v as u32
            } else {
                50
            },
            None => 50,
        };
        let by: u32 = match sort_by {
            Some(v) => if 0 <= v && v <= 12 {
                v as u32
            } else {
                0
            },
            None => 0,
        };
        let ord: u32 = match sort_order {
            Some(v) => if 0 <= v && v <= 1 {
                v as u32
            } else {
                0
            },
            None => 0,
        };
        Settings { max_results: max, sort_by: by, sort_order: ord }
    }

    /// The internal cap pushed to the backend: four times the user's cap.
    /// The margin absorbs rows later removed as duplicates, so the final
    /// list can still reach the user's cap without a second query.
    pub fn backend_cap(&self) -> (cap: u32)
        requires
            self.wf(),
        ensures
            cap == self.max_results * 4,
    {
        self.max_results * 4
    }

    /// The combined sort code pushed to the backend: the field index
    /// doubled, plus the direction, plus one. This reproduces the backend's
    /// own enumeration, 1 for name ascending up to 26 for the last field
    /// descending, so the raw integer must be exactly this.
    pub fn sort_code(&self) -> (code: u32)
        requires
            self.wf(),
        ensures
            code == self.sort_by * 2 + self.sort_order + 1,
            1 <= code <= 26,
    {
        self.sort_by * 2 + self.sort_order + 1
    }

    /// The cap applied to the final result list.
    pub fn result_cap(&self) -> (cap: usize)
        ensures
            cap == self.max_results,
    {
        self.max_results as usize
    }
}

/// The result cap a raw host value loads to: itself within the schema
/// bounds, the default of 50 otherwise.
pub open spec fn spec_loaded_max(v: Option<i64>) -> u32 {
    match v {
        Option::Some(x) => if 1 <= x <= 250 {
            x as u32
        } else {
            50
        },
        Option::None => 50,
    }
}

/// The sort field a raw host value loads to: itself within the enumeration,
/// the first field otherwise.
pub open spec fn spec_loaded_sort_by(v: Option<i64>) -> u32 {
    match v {
        Option::Some(x) => if 0 <= x <= 12 {
            x as u32
        } else {
            0
        },
        Option::None => 0,
    }
}

/// The sort direction a raw host value loads to: itself if it names one,
/// ascending otherwise.
pub open spec fn spec_loaded_sort_order(v: Option<i64>) -> u32 {
    match v {
        Option::Some(x) => if 0 <= x <= 1 {
            x as u32
        } else {
            0
        },
        Option::None => 0,
    }
}

impl Default for Settings {
    /// The defaults: 50 results, sorted by the first field (name),
    /// ascending.
    fn default() -> (s: Settings)
        ensures
            s.wf(),
            s.max_results == 50,
            s.sort_by == 0,
            s.sort_order == 0,
    {
        Settings { max_results: 50, sort_by: 0, sort_order: 0 }
    }
}

} // verus!
