use vstd::prelude::*;

verus! {

/// The room of a game session: the channel its events are pushed to.
/// An empty id means the session has no room.
#[derive(Debug)]
pub struct Room {
    pub id: String,
}

impl Default for Room {
    fn default() -> (r: Self)
        ensures
            r.id@.len() == 0,
    {
        Room { id: String::new() }
    }
}

/// Generates a fresh room id with `uuid::Uuid::new_v4`, rendered in the
/// hyphenated form. Claimed: the id has the 36 characters of that form.
/// Which id comes out is random and is not stated; in particular nothing
/// says it differs from the ids already in use. `new_v4` panics when the
/// operating system's random source fails, a fault of the machine that no
/// argument can rule out, so it is not excluded here.
#[verifier::external_body]
pub(crate) fn new_room_id() -> (r: String)
    ensures
        r@.len() == 36,
{
    uuid::Uuid::new_v4().to_string()
}

impl Room {
    pub fn has_room(&self) -> (r: bool)
        ensures
            r == (self.id@.len() > 0),
    {
        !self.id.as_str().is_empty()
    }

    /// Opens a room under a freshly generated id and returns the id, for
    /// the caller to join its socket to.
    pub fn join_room(&mut self) -> (room_id: String)
        ensures
            final(self).id@ == room_id@,
            room_id@.len() == 36,
    {
        let room_id = new_room_id();
        self.id = room_id.clone();
        room_id
    }

    /// Closes the room.
    pub fn leave_room(&mut self)
        ensures
            final(self).id@.len() == 0,
    {
        self.clean();
    }

    fn clean(&mut self)
        ensures
            final(self).id@.len() == 0,
    {
        self.id = String::new();
    }
}

} // verus!
