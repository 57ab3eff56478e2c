//! The id of a view that collaborators share.

use crate::error::Error;
use crate::proto;
use crate::proto::PeerId;
use vstd::prelude::*;

verus! {

/// The id of a view: who created it, and a number that its creator gave it.
#[derive(Clone, Copy, Debug, PartialEq, Eq, Structural)]
pub struct ViewId {
    pub creator: PeerId,
    pub id: u64,
}

/// The id that a message carries, if it names a creator.
pub open spec fn view_id_from_proto(message: proto::ViewId) -> Result<ViewId, Error> {
    match message.creator {
        Some(creator) => Ok(ViewId { creator, id: message.id }),
        None => Err(Error::MissingCreator),
    }
}

/// The id as a message carries it.
pub open spec fn view_id_to_proto(id: ViewId) -> proto::ViewId {
    proto::ViewId { creator: Some(id.creator), id: id.id }
}

impl ViewId {
    /// Reads the id out of a message. Fails if the message names no creator.
    pub fn from_proto(message: proto::ViewId) -> (result: Result<ViewId, Error>)
        ensures
            result == view_id_from_proto(message),
    {
        match message.creator {
            Some(creator) => Ok(ViewId { creator, id: message.id }),
            None => Err(Error::MissingCreator),
        }
    }

    /// The id as a message carries it.
    pub fn to_proto(&self) -> (message: proto::ViewId)
        ensures
            message == view_id_to_proto(*self),
    {
        proto::ViewId { creator: Some(self.creator), id: self.id }
    }
}

/// An id that is written to a message is read back as it was.
pub proof fn law_view_id_round_trip(id: ViewId)
    ensures
        view_id_from_proto(view_id_to_proto(id)) == Ok::<ViewId, Error>(id),
{
}

/// A message that can be read is written again as it was.
pub proof fn law_view_id_message_round_trip(message: proto::ViewId)
    requires
        view_id_from_proto(message) is Ok,
    ensures
        view_id_to_proto(view_id_from_proto(message)->Ok_0) == message,
{
}

} // verus!
