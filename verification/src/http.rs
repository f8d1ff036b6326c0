//! The bodies of the signalling endpoint: an SDP offer for a service, and
//! the SDP answer.
use vstd::prelude::*;
use crate::text::push_str;

verus! {

/// An SDP offer for the stream of a service.
#[derive(Debug)]
pub struct OfferRequest {
    pub sdp: String,
    pub service_id: String,
}

/// The SDP answer to an offer.
#[derive(Debug)]
pub struct AnswerResponse {
    pub sdp: String,
    pub sdp_type: String,
}

impl AnswerResponse {
    /// The answer carrying `sdp`, of type `answer`.
    pub fn answer(sdp: String) -> (res: Self)
        ensures
            res.sdp == sdp,
            res.sdp_type@ == "answer"@,
    {
        let mut t = String::new();
        push_str(&mut t, "answer");
        AnswerResponse { sdp, sdp_type: t }
    }
}

} // verus!
