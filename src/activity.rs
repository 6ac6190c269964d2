//! Time-entry activities, and the lookup of an activity by its name.

use crate::error::Error;
use vstd::prelude::*;

verus! {

/// A kind of work that time is logged under, as the server lists it.
#[derive(Clone, Debug)]
pub struct TimeEntryActivity {
    pub id: i32,
    pub name: String,
}

/// `i` is the position of the first activity called `name`.
pub open spec fn is_first_named(
    activities: Seq<TimeEntryActivity>,
    name: Seq<char>,
    i: int,
) -> bool {
    &&& 0 <= i < activities.len()
    &&& activities[i].name@ == name
    &&& forall|j: int| 0 <= j < i ==> activities[j].name@ != name
}

/// The id of the first activity called `name`; an error naming `name` when no
/// activity is called so.
pub fn activity_id_by_name(activities: &Vec<TimeEntryActivity>, name: &str) -> (r: Result<i32, Error>)
    ensures
        match r {
            Ok(id) => exists|i: int|
                is_first_named(activities@, name@, i) && #[trigger] activities@[i].id == id,
            Err(e) => {
                &&& forall|i: int|
                    0 <= i < activities@.len() ==> #[trigger] activities@[i].name@ != name@
                &&& e matches Error::InvalidActivityName(m) && m@ == name@
            },
        },
{
    let wanted = name.to_owned();
    let mut i: usize = 0;
    while i < activities.len()
        invariant
            i <= activities.len(),
            wanted@ == name@,
            forall|j: int| 0 <= j < i ==> #[trigger] activities@[j].name@ != name@,
        decreases activities.len() - i,
    {
        if activities[i].name == wanted {
            assert(is_first_named(activities@, name@, i as int));
            return Ok(activities[i].id);
        }
        i = i + 1;
    }
    Err(Error::InvalidActivityName(wanted))
}

} // verus!
