//! Fixed-shape transfer records of the application domain, and the
//! sentinel helpers that absent fields default to.
use vstd::prelude::*;

verus! {

/// A mentee: someone scheduled into lessons.
pub struct Mentee {
    pub name: String,
}

impl Mentee {
    pub fn new() -> (r: Self)
        ensures
            r.name@ == Seq::<char>::empty(),
    {
        Mentee { name: String::new() }
    }
}

/// A user's personal data in transfer form.
pub struct User {
    pub firstname: String,
    pub surname: String,
    pub phone: String,
}

impl User {
    pub fn new() -> (r: Self)
        ensures
            r.firstname@ == Seq::<char>::empty(),
            r.surname@ == Seq::<char>::empty(),
            r.phone@ == Seq::<char>::empty(),
    {
        User { firstname: String::new(), surname: String::new(), phone: String::new() }
    }
}

/// One schedule slot: a possibly-group lesson with its mentees, teachers
/// and times.
pub struct ScheduleEntry {
    pub is_group: bool,
    pub mentees: Vec<u64>,
    pub users: Vec<u64>,
    pub times: Vec<u64>,
}

impl ScheduleEntry {
    pub fn new() -> (r: Self)
        ensures
            !r.is_group,
            r.mentees@.len() == 0,
            r.users@.len() == 0,
            r.times@.len() == 0,
    {
        ScheduleEntry { is_group: false, mentees: Vec::new(), users: Vec::new(), times: Vec::new() }
    }
}

/// The default of an absent boolean field.
pub fn set_false() -> (r: bool)
    ensures
        !r,
{
    false
}

/// The default of an absent ID-list field.
pub fn empty_u64_set() -> (r: Vec<u64>)
    ensures
        r@.len() == 0,
{
    Vec::new()
}

/// The sentinel week number: none chosen.
pub fn unset_week() -> (r: u64)
    ensures
        r == u64::MAX,
{
    u64::MAX
}

} // verus!
