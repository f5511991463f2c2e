//! Pairing with masters: the addresses that discovery finds, and the wait for
//! approval.
use crate::model::{RegisterResponse, RegisterResponseView, RegistrationStatus};
use crate::seqs::{lemma_views_push, views};
use crate::sync::SyncError;
use crate::text::{decimal, decimal_text, text_eq};
use vstd::prelude::*;
use vstd::string::*;

verus! {

/// The service under which masters announce themselves on the local network.
pub const MDNS_SERVICE_TYPE: &'static str = "_timewise._tcp.local.";

// ---- Discovery ----
/// The address of a master at a host and a port.
pub open spec fn master_url(host: Seq<char>, port: u16) -> Seq<char> {
    "http://"@ + host + ":"@ + decimal(port as nat)
}

pub fn url_of(host: &str, port: u16) -> (res: String)
    ensures
        res@ == master_url(host@, port),
{
    let port_text = decimal_text(port as u64);
    let res = "http://".to_owned().concat(host).concat(":").concat(port_text.as_str());
    assert(res@ =~= master_url(host@, port));
    res
}

/// The addresses after one more was seen: only version 4 of the protocol
/// counts, and none is listed twice.
pub open spec fn with_address(
    urls: Seq<Seq<char>>,
    host: Seq<char>,
    is_ipv4: bool,
    port: u16,
) -> Seq<Seq<char>> {
    if is_ipv4 && !urls.contains(master_url(host, port)) {
        urls.push(master_url(host, port))
    } else {
        urls
    }
}

/// Takes note of an address that discovery has found.
pub fn note_address(urls: &mut Vec<String>, host: &str, is_ipv4: bool, port: u16)
    ensures
        views(final(urls)@) == with_address(views(old(urls)@), host@, is_ipv4, port),
{
    if !is_ipv4 {
        return;
    }
    let url = url_of(host, port);
    let ghost before = views(urls@);
    let mut i: usize = 0;
    while i < urls.len()
        invariant
            i <= urls.len(),
            before == views(urls@),
            before == views(old(urls)@),
            is_ipv4,
            url@ == master_url(host@, port),
            forall|j: int| 0 <= j < i ==> #[trigger] before[j] != url@,
        decreases urls.len() - i,
    {
        if text_eq(urls[i].as_str(), url.as_str()) {
            assert(before[i as int] == url@);
            return;
        }
        i += 1;
    }
    proof {
        lemma_views_push(urls@, url);
    }
    urls.push(url);
}

/// How long to wait for the next answer while browsing: until the time is up,
/// in slices of a fifth of a second. A slice without an answer ends nothing;
/// a closed channel does.
pub fn browse_wait_ms(remaining_ms: u64, closed: bool) -> (wait: Option<u64>)
    ensures
        wait == if remaining_ms == 0 || closed {
            None
        } else if remaining_ms < 200 {
            Some(remaining_ms)
        } else {
            Some(200u64)
        },
{
    if remaining_ms == 0 || closed {
        None
    } else if remaining_ms < 200 {
        Some(remaining_ms)
    } else {
        Some(200)
    }
}

/// What discovery lists stays free of duplicates, and an address stays once
/// it is there.
pub proof fn discovery_lists_once(urls: Seq<Seq<char>>, host: Seq<char>, is_ipv4: bool, port: u16)
    requires
        urls.no_duplicates(),
    ensures
        with_address(urls, host, is_ipv4, port).no_duplicates(),
        urls.is_prefix_of(with_address(urls, host, is_ipv4, port)),
        is_ipv4 ==> with_address(urls, host, is_ipv4, port).contains(master_url(host, port)),
{
    let after = with_address(urls, host, is_ipv4, port);
    if is_ipv4 && !urls.contains(master_url(host, port)) {
        assert(after[urls.len() as int] == master_url(host, port));
    }
}

// ---- Approval ----
/// What to do next while waiting for the approval.
#[derive(Debug)]
pub enum PollAction {
    Ask,
    SleepThenAsk,
    Finish(Result<RegisterResponse, SyncError>),
}

/// Asks for the status until the worker is approved, but not more often than
/// allowed.
#[derive(Debug)]
pub struct ApprovalPoll {
    attempts: u32,
    max_attempts: u32,
}

pub struct PollView {
    pub attempts: u32,
    pub max_attempts: u32,
}

impl View for ApprovalPoll {
    type V = PollView;

    closed spec fn view(&self) -> PollView {
        PollView { attempts: self.attempts, max_attempts: self.max_attempts }
    }
}

impl ApprovalPoll {
    /// Begins to wait. Without any attempt the worker counts as pending.
    pub fn begin(max_attempts: u32) -> (res: (ApprovalPoll, PollAction))
        ensures
            res.0@ == (PollView { attempts: 0, max_attempts }),
            if max_attempts > 0 {
                res.1 == PollAction::Ask
            } else {
                res.1 matches PollAction::Finish(Ok(r)) && r@ == (RegisterResponseView {
                    status: RegistrationStatus::Pending,
                    child_name: None,
                })
            },
    {
        let poll = ApprovalPoll { attempts: 0, max_attempts };
        if max_attempts > 0 {
            (poll, PollAction::Ask)
        } else {
            let last = RegisterResponse { status: RegistrationStatus::Pending, child_name: None };
            (poll, PollAction::Finish(Ok(last)))
        }
    }

    /// Takes an answer. An error or the approval ends the wait, and so does
    /// the last attempt, whose answer is the result.
    pub fn answered(&mut self, answer: Result<RegisterResponse, SyncError>) -> (action: PollAction)
        requires
            old(self)@.attempts < old(self)@.max_attempts,
        ensures
            final(self)@.attempts == old(self)@.attempts + 1,
            final(self)@.max_attempts == old(self)@.max_attempts,
            action == if answer matches Ok(r) && r.status != RegistrationStatus::Approved && old(
                self,
            )@.attempts + 1 < old(self)@.max_attempts {
                PollAction::SleepThenAsk
            } else {
                PollAction::Finish(answer)
            },
    {
        self.attempts = self.attempts + 1;
        match answer {
            Ok(r) => {
                if r.status == RegistrationStatus::Approved || self.attempts >= self.max_attempts {
                    PollAction::Finish(Ok(r))
                } else {
                    PollAction::SleepThenAsk
                }
            },
            Err(e) => PollAction::Finish(Err(e)),
        }
    }
}

/// An address of another version of the protocol is not listed, and nothing
/// but the address that was seen is ever added, at the end.
pub proof fn discovery_adds_what_was_seen(
    urls: Seq<Seq<char>>,
    host: Seq<char>,
    is_ipv4: bool,
    port: u16,
)
    ensures
        ({
            let after = with_address(urls, host, is_ipv4, port);
            let url = "http://"@ + host + ":"@ + decimal(port as nat);
            &&& !is_ipv4 || urls.contains(url) ==> after == urls
            &&& is_ipv4 && !urls.contains(url) ==> after == urls.push(url)
        }),
{
}

/// The wait for approval asks as often as allowed, ends with the approval or
/// with an error, and ends with the last answer.
pub proof fn wait_ends_with_the_approval(
    poll: &mut ApprovalPoll,
    answer: Result<RegisterResponse, SyncError>,
    action: PollAction,
)
    requires
        call_ensures(ApprovalPoll::answered, (poll, answer), action),
    ensures
        final(poll)@.attempts == old(poll)@.attempts + 1,
        final(poll)@.max_attempts == old(poll)@.max_attempts,
        answer is Err ==> action == PollAction::Finish(answer),
        answer matches Ok(r) ==> if r.status == RegistrationStatus::Approved
            || final(poll)@.attempts >= final(poll)@.max_attempts {
            action == PollAction::Finish(answer)
        } else {
            action == PollAction::SleepThenAsk
        },
{
}

/// Browsing waits in slices of a fifth of a second until the time is up or the
/// channel is closed.
pub proof fn browsing_lasts_its_time(remaining_ms: u64, closed: bool, wait: Option<u64>)
    requires
        call_ensures(browse_wait_ms, (remaining_ms, closed), wait),
    ensures
        wait is None <==> closed || remaining_ms == 0,
        wait matches Some(w) ==> 0 < w <= 200 && w <= remaining_ms && (w < 200 ==> w
            == remaining_ms),
{
}

/// Discovery adds an address that it sees, once, if it is of version 4.
pub proof fn seen_address_is_noted(
    urls: &mut Vec<String>,
    host: &str,
    is_ipv4: bool,
    port: u16,
)
    requires
        call_ensures(note_address, (urls, host, is_ipv4, port), ()),
    ensures
        ({
            let before = views(old(urls)@);
            let after = views(final(urls)@);
            let url = "http://"@ + host@ + ":"@ + decimal(port as nat);
            &&& !is_ipv4 || before.contains(url) ==> after == before
            &&& is_ipv4 && !before.contains(url) ==> after == before.push(url)
        }),
{
    discovery_adds_what_was_seen(views(old(urls)@), host@, is_ipv4, port);
}

/// An address names host and port.
pub proof fn address_names_host_and_port(host: &str, port: u16, res: String)
    requires
        call_ensures(url_of, (host, port), res),
    ensures
        res@ == "http://"@ + host@ + ":"@ + decimal(port as nat),
{
}

} // verus!
