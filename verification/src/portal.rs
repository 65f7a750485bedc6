//! How portal requests are answered.

use vstd::prelude::*;

verus! {

/// The name of the service on the message bus.
pub const PORTAL_DBUS_NAME: &'static str = "org.freedesktop.impl.portal.desktop.shiny";

/// Where the portals are found.
pub const PORTAL_DBUS_PATH: &'static str = "/org/freedesktop/portal/desktop";

/// The version of the interface of portal sessions.
pub const SESSION_VERSION: u32 = 1;

/// The answer to a portal request.
#[derive(Debug)]
pub enum PortalResponse<T> {
    Success(T),
    /// The user refused.
    Cancelled,
    /// The request failed.
    Other,
}

impl<T> PortalResponse<T> {
    /// The number of an answer on the message bus.
    pub open spec fn number(self) -> u32 {
        match self {
            PortalResponse::Success(_) => 0,
            PortalResponse::Cancelled => 1,
            PortalResponse::Other => 2,
        }
    }

    /// The number of an answer on the message bus. Only a success has results.
    pub fn code(&self) -> (code: u32)
        ensures
            code == self.number(),
    {
        match self {
            PortalResponse::Success(_) => 0,
            PortalResponse::Cancelled => 1,
            PortalResponse::Other => 2,
        }
    }
}

/// The number of an answer tells a success from a refusal and from a failure.
pub proof fn law_answers_are_numbered<T>(response: PortalResponse<T>, code: u32)
    requires
        call_ensures(PortalResponse::<T>::code, (&response,), code),
    ensures
        code == 0 <==> response is Success,
        code == 1 <==> response is Cancelled,
        code == 2 <==> response is Other,
{
}

} // verus!
