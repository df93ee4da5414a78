//! Outbound mail: the transport interface and the service that uses it.
use vstd::prelude::*;

verus! {

/// A way to deliver mail. Implementations perform the delivery; errors are
/// reported as text.
pub trait EmailTransport {
    fn send_magic_link(&self, email: &str, token: &str) -> Result<(), String>;

    fn send_notification(
        &self,
        to: &str,
        subject: &str,
        html_body: &str,
        text_body: &str,
        reply_to: Option<&str>,
        thread_id: Option<&str>,
    ) -> Result<(), String>;
}

/// Sends the application's mail through a transport.
pub struct EmailService<T: EmailTransport> {
    pub transport: T,
}

impl<T: EmailTransport> EmailService<T> {
    pub fn new(transport: T) -> (r: Self)
        ensures
            r.transport == transport,
    {
        EmailService { transport }
    }

    pub fn send_magic_link(&self, email: &str, token: &str) -> Result<(), String> {
        self.transport.send_magic_link(email, token)
    }

    pub fn send_notification(
        &self,
        to: &str,
        subject: &str,
        html_body: &str,
        text_body: &str,
        reply_to: Option<&str>,
        thread_id: Option<&str>,
    ) -> Result<(), String> {
        self.transport.send_notification(to, subject, html_body, text_body, reply_to, thread_id)
    }
}

/// A transport for development that records mail instead of sending it.
#[derive(Debug, Clone)]
pub struct MockTransport {
    pub base_url: String,
}

/// The login link for `token` under `base_url`.
pub open spec fn magic_link_of(base_url: Seq<char>, token: Seq<char>) -> Seq<char> {
    base_url + "/verify-login?token="@ + token
}

impl MockTransport {
    pub fn new(base_url: String) -> (r: Self)
        ensures
            r.base_url == base_url,
    {
        MockTransport { base_url }
    }

    /// The login link that a magic-link mail carries.
    pub fn magic_link(&self, token: &str) -> (r: String)
        ensures
            r@ == magic_link_of(self.base_url@, token@),
    {
        let mut r = self.base_url.clone();
        r.append("/verify-login?token=");
        r.append(token);
        r
    }
}

} // verus!
