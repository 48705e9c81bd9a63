//! Team membership and invitation authorization: who may invite, who may
//! remove whom, how pending invitations become members, and what a team
//! directory shows to a given requester.

pub mod roles;
pub mod email;
pub mod model;
pub mod gate;
pub mod store;
pub mod laws;
