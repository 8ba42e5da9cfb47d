//! A bounded search of the local network: what is sent, for how long replies
//! are collected, and which of them are listed.

use vstd::prelude::*;

use crate::ssdp::{ssdp_response_tv, DiscoveredTv, Source, Tv};

verus! {

/// The multicast group and port that every search is sent to; replies come
/// back to the socket that asked.
pub const SSDP_GROUP: (u8, u8, u8, u8) = (239, 255, 255, 250);

pub const SSDP_PORT: u16 = 1900;

/// The two searches, one for every device and one for the casting service that
/// the televisions announce. A responder may drop any single datagram, so both
/// are sent twice.
pub const SSDP_SEARCH_ALL: &'static str =
    "M-SEARCH * HTTP/1.1\r\nHOST: 239.255.255.250:1900\r\nMAN: \"ssdp:discover\"\r\nMX: 1\r\nST: ssdp:all\r\n\r\n";

pub const SSDP_SEARCH_DIAL: &'static str =
    "M-SEARCH * HTTP/1.1\r\nHOST: 239.255.255.250:1900\r\nMAN: \"ssdp:discover\"\r\nMX: 1\r\nST: urn:dial-multiscreen-org:service:dial:1\r\n\r\n";

/// For how many milliseconds replies are collected.
pub const DISCOVERY_WINDOW: u64 = 3_000;

/// After how many milliseconds the searches are sent again.
pub const DISCOVERY_RESEND_AFTER: u64 = 1_000;

/// How many milliseconds the search rests when no datagram is waiting.
pub const DISCOVERY_PARK: u64 = 50;

/// How many televisions are listed at most. Each host is listed once, so this
/// counts televisions and not their replies.
pub const DISCOVERY_LIMIT: usize = 16;

/// Whether one of `tvs` has this host.
pub open spec fn lists(tvs: Seq<Tv>, host: Seq<char>) -> bool {
    exists|i: int| 0 <= i < tvs.len() && (#[trigger] tvs[i]).host == host
}

/// The list after one more reply: a new host goes to its end.
pub open spec fn recorded(tvs: Seq<Tv>, entry: Option<Tv>) -> Seq<Tv> {
    match entry {
        Some(tv) => if lists(tvs, tv.host) {
            tvs
        } else {
            tvs.push(tv)
        },
        None => tvs,
    }
}

/// No host is listed twice.
pub open spec fn hosts_differ(tvs: Seq<Tv>) -> bool {
    forall|i: int, j: int|
        0 <= i < j < tvs.len() ==> (#[trigger] tvs[i]).host != (#[trigger] tvs[j]).host
}

/// Whether the searches are to be sent again, `elapsed` milliseconds after they
/// were first sent.
pub open spec fn resend_wanted(resent: bool, elapsed: u64) -> bool {
    !resent && elapsed >= DISCOVERY_RESEND_AFTER
}

/// The state of one search: the televisions found so far, and whether the
/// searches were sent a second time.
pub struct Discovery {
    pub found: Vec<DiscoveredTv>,
    pub resent: bool,
}

impl Discovery {
    /// The televisions found so far, in the order in which they answered.
    pub open spec fn tvs(self) -> Seq<Tv> {
        Seq::new(self.found@.len(), |i: int| self.found@[i]@)
    }

    /// The list is never longer than its limit and holds no host twice.
    pub open spec fn wf(self) -> bool {
        self.tvs().len() <= DISCOVERY_LIMIT && hosts_differ(self.tvs())
    }

    /// A search that was just sent.
    pub fn new() -> (r: Discovery)
        ensures
            r.wf(),
            r.tvs() == Seq::<Tv>::empty(),
            !r.resent,
    {
        let r = Discovery { found: Vec::new(), resent: false };
        assert(r.tvs() =~= Seq::<Tv>::empty());
        r
    }

    /// Whether to go on listening when `elapsed` milliseconds have passed since
    /// the search was sent.
    pub fn searching(&self, elapsed: u64) -> (r: bool)
        ensures
            r == (self.tvs().len() < DISCOVERY_LIMIT && elapsed < DISCOVERY_WINDOW),
    {
        self.found.len() < DISCOVERY_LIMIT && elapsed < DISCOVERY_WINDOW
    }

    /// Whether to send the searches again now, which is asked for once.
    pub fn resend_due(&mut self, elapsed: u64) -> (r: bool)
        ensures
            r == resend_wanted(old(self).resent, elapsed),
            final(self).resent == (old(self).resent || r),
            final(self).tvs() == old(self).tvs(),
    {
        let r = !self.resent && elapsed >= DISCOVERY_RESEND_AFTER;
        if r {
            self.resent = true;
        }
        r
    }

    /// Whether a television with this host was found already.
    fn has_host(&self, host: &String) -> (r: bool)
        ensures
            r == lists(self.tvs(), host@),
    {
        let mut i: usize = 0;
        while i < self.found.len()
            invariant
                i <= self.found.len(),
                forall|j: int| 0 <= j < i ==> (#[trigger] self.tvs()[j]).host != host@,
            decreases self.found.len() - i,
        {
            if self.found[i].host == *host {
                assert(self.tvs()[i as int].host == host@);
                return true;
            }
            i = i + 1;
        }
        false
    }

    /// Takes in one datagram.
    pub fn receive(&mut self, reply: &[u8], source: Source)
        requires
            old(self).wf(),
            old(self).tvs().len() < DISCOVERY_LIMIT,
        ensures
            final(self).wf(),
            final(self).tvs() == recorded(
                old(self).tvs(),
                crate::ssdp::reply_tv(reply@, source),
            ),
            final(self).resent == old(self).resent,
    {
        if let Some(tv) = ssdp_response_tv(reply, source) {
            if !self.has_host(&tv.host) {
                let ghost before = self.tvs();
                let ghost entry = tv@;
                self.found.push(tv);
                assert(self.tvs() =~= before.push(entry));
                assert(self.wf());
            }
        }
    }
}

/// A list that is still open, and whether the searches were sent again.
#[verifier::ext_equal]
pub struct DiscoveryView {
    pub tvs: Seq<Tv>,
    pub resent: bool,
}

impl View for Discovery {
    type V = DiscoveryView;

    open spec fn view(&self) -> DiscoveryView {
        DiscoveryView { tvs: self.tvs(), resent: self.resent }
    }
}

// ---------------------------------------------------------------------------
// The course of a search
// ---------------------------------------------------------------------------

/// The state of a search as a mathematical value.
pub enum SearchView {
    OpenSocket,
    JoinGroup,
    Unblock,
    SendAll { list: DiscoveryView },
    SendDial { list: DiscoveryView },
    Continue { list: DiscoveryView },
    Resend { list: DiscoveryView },
    Receive { list: DiscoveryView },
    Park { list: DiscoveryView },
    Done { tvs: Seq<Tv> },
    Failed { message: Seq<char> },
}

/// The state of a search, which says what is done next.
pub enum Searching {
    /// Open a socket.
    OpenSocket,
    /// Join the group, for interfaces that insist on it; replies come without.
    JoinGroup,
    /// Have the socket return at once when no datagram waits.
    Unblock,
    /// Send the search for every device.
    SendAll { list: Discovery },
    /// Send the search for the casting service.
    SendDial { list: Discovery },
    /// Look at the clock, whether to go on.
    Continue { list: Discovery },
    /// Look at the clock, whether to send the searches again.
    Resend { list: Discovery },
    /// Receive a datagram.
    Receive { list: Discovery },
    /// Rest for a moment.
    Park { list: Discovery },
    /// These televisions were found.
    Done { tvs: Vec<DiscoveredTv> },
    /// There was no search.
    Failed { message: String },
}

impl View for Searching {
    type V = SearchView;

    open spec fn view(&self) -> SearchView {
        match *self {
            Searching::OpenSocket => SearchView::OpenSocket,
            Searching::JoinGroup => SearchView::JoinGroup,
            Searching::Unblock => SearchView::Unblock,
            Searching::SendAll { list } => SearchView::SendAll { list: list@ },
            Searching::SendDial { list } => SearchView::SendDial { list: list@ },
            Searching::Continue { list } => SearchView::Continue { list: list@ },
            Searching::Resend { list } => SearchView::Resend { list: list@ },
            Searching::Receive { list } => SearchView::Receive { list: list@ },
            Searching::Park { list } => SearchView::Park { list: list@ },
            Searching::Done { tvs } => SearchView::Done {
                tvs: Seq::new(tvs@.len(), |i: int| tvs@[i]@),
            },
            Searching::Failed { message } => SearchView::Failed { message: message@ },
        }
    }
}

/// What happened as a mathematical value.
pub enum SearchEventView {
    Opened { opened: bool },
    Joined,
    Unblocked { unblocked: bool },
    Sent { sent: bool },
    Clock { elapsed: u64 },
    Datagram { reply: Seq<u8>, source: Source },
    Silence,
    Rested,
}

/// What happened.
pub enum SearchEvent {
    /// The socket was opened, or could not be.
    Opened { opened: bool },
    /// The group was joined, or not.
    Joined,
    /// The socket returns at once from now on, or cannot.
    Unblocked { unblocked: bool },
    /// The search was sent, or could not be.
    Sent { sent: bool },
    /// So many milliseconds have passed since the searches were first sent.
    Clock { elapsed: u64 },
    /// A datagram came in.
    Datagram { reply: Vec<u8>, source: Source },
    /// No datagram waits.
    Silence,
    /// The moment is over.
    Rested,
}

impl View for SearchEvent {
    type V = SearchEventView;

    open spec fn view(&self) -> SearchEventView {
        match *self {
            SearchEvent::Opened { opened } => SearchEventView::Opened { opened },
            SearchEvent::Joined => SearchEventView::Joined,
            SearchEvent::Unblocked { unblocked } => SearchEventView::Unblocked { unblocked },
            SearchEvent::Sent { sent } => SearchEventView::Sent { sent },
            SearchEvent::Clock { elapsed } => SearchEventView::Clock { elapsed },
            SearchEvent::Datagram { reply, source } => SearchEventView::Datagram {
                reply: reply@,
                source,
            },
            SearchEvent::Silence => SearchEventView::Silence,
            SearchEvent::Rested => SearchEventView::Rested,
        }
    }
}

/// An empty list.
pub open spec fn no_tvs() -> DiscoveryView {
    DiscoveryView { tvs: Seq::empty(), resent: false }
}

/// What follows when a search could not be sent: without the first ones there
/// is no search, but it goes on without a second one.
pub open spec fn not_sent(list: DiscoveryView) -> SearchView {
    if list.resent {
        SearchView::Receive { list }
    } else {
        SearchView::Failed { message: "Could not send the TV search on the local network"@ }
    }
}

/// Whether a search goes on, `elapsed` milliseconds after it was sent.
pub open spec fn goes_on(list: DiscoveryView, elapsed: u64) -> bool {
    list.tvs.len() < DISCOVERY_LIMIT && elapsed < DISCOVERY_WINDOW
}

/// The state that follows. What a state does not wait for changes nothing.
pub open spec fn search_next(state: SearchView, event: SearchEventView) -> SearchView {
    match (state, event) {
        (SearchView::OpenSocket, SearchEventView::Opened { opened }) => if opened {
            SearchView::JoinGroup
        } else {
            SearchView::Failed {
                message: "Could not open a local network socket to search for TVs"@,
            }
        },
        (SearchView::JoinGroup, SearchEventView::Joined) => SearchView::Unblock,
        (SearchView::Unblock, SearchEventView::Unblocked { unblocked }) => if unblocked {
            SearchView::SendAll { list: no_tvs() }
        } else {
            SearchView::Failed { message: "Could not prepare the local TV search"@ }
        },
        (SearchView::SendAll { list }, SearchEventView::Sent { sent }) => if sent {
            SearchView::SendDial { list }
        } else {
            not_sent(list)
        },
        (SearchView::SendDial { list }, SearchEventView::Sent { sent }) => if !sent {
            not_sent(list)
        } else if list.resent {
            SearchView::Receive { list }
        } else {
            SearchView::Continue { list }
        },
        (SearchView::Continue { list }, SearchEventView::Clock { elapsed }) => if goes_on(
            list,
            elapsed,
        ) {
            SearchView::Resend { list }
        } else {
            SearchView::Done { tvs: list.tvs }
        },
        (SearchView::Resend { list }, SearchEventView::Clock { elapsed }) => if resend_wanted(
            list.resent,
            elapsed,
        ) {
            SearchView::SendAll { list: DiscoveryView { resent: true, ..list } }
        } else {
            SearchView::Receive { list }
        },
        (
            SearchView::Receive { list },
            SearchEventView::Datagram { reply, source },
        ) => SearchView::Continue {
            list: DiscoveryView {
                tvs: recorded(list.tvs, crate::ssdp::reply_tv(reply, source)),
                ..list
            },
        },
        (SearchView::Receive { list }, SearchEventView::Silence) => SearchView::Park { list },
        (SearchView::Park { list }, SearchEventView::Rested) => SearchView::Continue { list },
        _ => state,
    }
}

/// Whether a list holds no host twice and keeps its limit.
pub open spec fn list_wf(list: DiscoveryView) -> bool {
    list.tvs.len() <= DISCOVERY_LIMIT && hosts_differ(list.tvs)
}

/// The list of a search holds no host twice and keeps its limit, and there is
/// room in it when a datagram is received.
pub open spec fn search_wf(state: SearchView) -> bool {
    match state {
        SearchView::SendAll { list } => list_wf(list) && (list.resent ==> list.tvs.len()
            < DISCOVERY_LIMIT),
        SearchView::SendDial { list } => list_wf(list) && (list.resent ==> list.tvs.len()
            < DISCOVERY_LIMIT),
        SearchView::Continue { list } => list_wf(list),
        SearchView::Resend { list } => list_wf(list) && list.tvs.len() < DISCOVERY_LIMIT,
        SearchView::Receive { list } => list_wf(list) && list.tvs.len() < DISCOVERY_LIMIT,
        SearchView::Park { list } => list_wf(list),
        SearchView::Done { tvs } => tvs.len() <= DISCOVERY_LIMIT && hosts_differ(tvs),
        _ => true,
    }
}

fn no_search(message: &str) -> (r: Searching)
    ensures
        r@ == (SearchView::Failed { message: message@ }),
{
    Searching::Failed { message: message.to_owned() }
}

/// Goes on when a search could not be sent.
fn search_not_sent(list: Discovery) -> (r: Searching)
    ensures
        r@ == not_sent(list@),
{
    if list.resent {
        Searching::Receive { list }
    } else {
        no_search("Could not send the TV search on the local network")
    }
}

/// Begins a search of the local network.
pub fn discover_ssdp() -> (r: Searching)
    ensures
        r@ == SearchView::OpenSocket,
        search_wf(r@),
{
    Searching::OpenSocket
}

impl Searching {
    /// The text of the datagram that is sent in this state.
    pub fn datagram(&self) -> (r: Option<&'static str>)
        ensures
            match r {
                Some(text) => (self@ is SendAll && text@ == SSDP_SEARCH_ALL@) || (self@ is SendDial
                    && text@ == SSDP_SEARCH_DIAL@),
                None => !(self@ is SendAll) && !(self@ is SendDial),
            },
    {
        match self {
            Searching::SendAll { list: _ } => Some(SSDP_SEARCH_ALL),
            Searching::SendDial { list: _ } => Some(SSDP_SEARCH_DIAL),
            _ => None,
        }
    }

    /// Takes in what happened.
    pub fn next(self, event: SearchEvent) -> (r: Searching)
        requires
            search_wf(self@),
        ensures
            r@ == search_next(self@, event@),
            search_wf(r@),
    {
        match (self, event) {
            (Searching::OpenSocket, SearchEvent::Opened { opened }) => if opened {
                Searching::JoinGroup
            } else {
                no_search("Could not open a local network socket to search for TVs")
            },
            (Searching::JoinGroup, SearchEvent::Joined) => Searching::Unblock,
            (Searching::Unblock, SearchEvent::Unblocked { unblocked }) => if unblocked {
                Searching::SendAll { list: Discovery::new() }
            } else {
                no_search("Could not prepare the local TV search")
            },
            (Searching::SendAll { list }, SearchEvent::Sent { sent }) => if sent {
                Searching::SendDial { list }
            } else {
                search_not_sent(list)
            },
            (Searching::SendDial { list }, SearchEvent::Sent { sent }) => if !sent {
                search_not_sent(list)
            } else if list.resent {
                Searching::Receive { list }
            } else {
                Searching::Continue { list }
            },
            (Searching::Continue { list }, SearchEvent::Clock { elapsed }) => if list.searching(
                elapsed,
            ) {
                Searching::Resend { list }
            } else {
                Searching::Done { tvs: list.found }
            },
            (Searching::Resend { list }, SearchEvent::Clock { elapsed }) => {
                let mut list = list;
                if list.resend_due(elapsed) {
                    Searching::SendAll { list }
                } else {
                    Searching::Receive { list }
                }
            },
            (Searching::Receive { list }, SearchEvent::Datagram { reply, source }) => {
                let mut list = list;
                list.receive(reply.as_slice(), source);
                Searching::Continue { list }
            },
            (Searching::Receive { list }, SearchEvent::Silence) => Searching::Park { list },
            (Searching::Park { list }, SearchEvent::Rested) => Searching::Continue { list },
            (state, _) => state,
        }
    }
}

// ---------------------------------------------------------------------------
// The answer
// ---------------------------------------------------------------------------

/// The way to the text of the list, which says what is done next.
pub enum Discovering {
    /// Search the local network.
    Search,
    /// Write this list as JSON.
    Encode { tvs: Vec<DiscoveredTv> },
    /// This is the text.
    Done { text: String },
    /// There is no list.
    Failed { message: String },
}

/// What happened on the way to the text of the list.
pub enum DiscoverEvent {
    /// The search ended before it was finished.
    Stopped,
    /// The search found these televisions.
    Found { tvs: Vec<DiscoveredTv> },
    /// The search failed.
    NoSearch { message: String },
    /// The list was written, or could not be.
    Encoded { text: Option<String> },
}

/// What follows on the way to the text of the list. What a state does not wait
/// for changes nothing.
pub open spec fn discover_next(state: Discovering, event: DiscoverEvent, r: Discovering) -> bool {
    match (state, event) {
        (Discovering::Search, DiscoverEvent::Stopped) => r matches Discovering::Failed { message }
            && message@ == "TV discovery stopped before finishing"@,
        (Discovering::Search, DiscoverEvent::Found { tvs }) => r == (Discovering::Encode { tvs }),
        (Discovering::Search, DiscoverEvent::NoSearch { message }) => r == (Discovering::Failed {
            message,
        }),
        (Discovering::Encode { .. }, DiscoverEvent::Encoded { text: Some(text) }) => r == (
        Discovering::Done { text }),
        (
            Discovering::Encode { .. },
            DiscoverEvent::Encoded { text: None },
        ) => r matches Discovering::Failed { message } && message@
            == "Could not encode the discovered TV list"@,
        _ => r == state,
    }
}

/// Begins to list the televisions on the local network.
pub fn smartcast_discover() -> (r: Discovering)
    ensures
        r is Search,
{
    Discovering::Search
}

impl Discovering {
    /// Takes in what happened.
    pub fn next(self, event: DiscoverEvent) -> (r: Discovering)
        ensures
            discover_next(self, event, r),
    {
        match (self, event) {
            (Discovering::Search, DiscoverEvent::Stopped) => Discovering::Failed {
                message: "TV discovery stopped before finishing".to_owned(),
            },
            (Discovering::Search, DiscoverEvent::Found { tvs }) => Discovering::Encode { tvs },
            (Discovering::Search, DiscoverEvent::NoSearch { message }) => Discovering::Failed {
                message,
            },
            (Discovering::Encode { tvs: _ }, DiscoverEvent::Encoded { text }) => match text {
                Some(text) => Discovering::Done { text },
                None => Discovering::Failed {
                    message: "Could not encode the discovered TV list".to_owned(),
                },
            },
            (state, _) => state,
        }
    }
}

// ---------------------------------------------------------------------------
// Laws
// ---------------------------------------------------------------------------

/// The list after the datagrams `replies`: those that come when the list is
/// full are not looked at.
pub open spec fn heard(replies: Seq<(Seq<u8>, Source)>) -> Seq<Tv>
    decreases replies.len(),
{
    if replies.len() == 0 {
        Seq::empty()
    } else {
        let tvs = heard(replies.drop_last());
        let (reply, source) = replies.last();
        if tvs.len() < DISCOVERY_LIMIT {
            recorded(tvs, crate::ssdp::reply_tv(reply, source))
        } else {
            tvs
        }
    }
}

/// Whatever comes in, no host is listed twice and the list keeps its limit.
pub proof fn law_each_host_is_listed_once(replies: Seq<(Seq<u8>, Source)>)
    ensures
        hosts_differ(heard(replies)),
        heard(replies).len() <= DISCOVERY_LIMIT,
    decreases replies.len(),
{
    if replies.len() > 0 {
        law_each_host_is_listed_once(replies.drop_last());
    }
}

/// A television that answered is listed, as long as the list has room.
pub proof fn law_every_answer_is_listed(replies: Seq<(Seq<u8>, Source)>, i: int)
    requires
        0 <= i < replies.len(),
        heard(replies).len() < 16,
    ensures
        crate::ssdp::reply_tv(replies[i].0, replies[i].1) matches Some(tv) ==> lists(
            heard(replies),
            tv.host,
        ),
    decreases replies.len(),
{
    let tvs = heard(replies.drop_last());
    let (reply, source) = replies.last();
    let entry = crate::ssdp::reply_tv(reply, source);
    assert(tvs.len() < DISCOVERY_LIMIT);
    if i < replies.len() - 1 {
        law_every_answer_is_listed(replies.drop_last(), i);
        if let Some(tv) = crate::ssdp::reply_tv(replies[i].0, replies[i].1) {
            let k = choose|k: int| 0 <= k < tvs.len() && (#[trigger] tvs[k]).host == tv.host;
            assert(heard(replies)[k] == tvs[k]);
        }
    } else if let Some(tv) = entry {
        if !lists(tvs, tv.host) {
            assert(heard(replies)[tvs.len() as int].host == tv.host);
        }
    }
}

/// Every entry of the list was read from one of the datagrams.
pub proof fn law_only_answers_are_listed(replies: Seq<(Seq<u8>, Source)>, k: int)
    requires
        0 <= k < heard(replies).len(),
    ensures
        exists|i: int|
            0 <= i < replies.len() && crate::ssdp::reply_tv(
                (#[trigger] replies[i]).0,
                replies[i].1,
            ) == Some(heard(replies)[k]),
    decreases replies.len(),
{
    let tvs = heard(replies.drop_last());
    if k < tvs.len() {
        law_only_answers_are_listed(replies.drop_last(), k);
        let i = choose|i: int|
            0 <= i < replies.drop_last().len() && crate::ssdp::reply_tv(
                (#[trigger] replies.drop_last()[i]).0,
                replies.drop_last()[i].1,
            ) == Some(tvs[k]);
        assert(replies[i] == replies.drop_last()[i]);
    } else {
        assert(replies[replies.len() - 1] == replies.last());
    }
}

/// What is listed stays listed, in its place, whatever comes in later.
pub proof fn law_entries_stay(replies: Seq<(Seq<u8>, Source)>, reply: Seq<u8>, source: Source)
    ensures
        heard(replies).is_prefix_of(heard(replies.push((reply, source)))),
{
    assert(replies.push((reply, source)).drop_last() =~= replies);
}

/// The state after all of `events`.
pub open spec fn search_after(state: SearchView, events: Seq<SearchEventView>) -> SearchView
    decreases events.len(),
{
    if events.len() == 0 {
        state
    } else {
        search_next(search_after(state, events.drop_last()), events.last())
    }
}

/// The datagrams that a search received.
pub open spec fn received(events: Seq<SearchEventView>) -> Seq<(Seq<u8>, Source)>
    decreases events.len(),
{
    if events.len() == 0 {
        Seq::empty()
    } else {
        let earlier = events.drop_last();
        match (search_after(SearchView::OpenSocket, earlier), events.last()) {
            (
                SearchView::Receive { .. },
                SearchEventView::Datagram { reply, source },
            ) => received(earlier).push((reply, source)),
            _ => received(earlier),
        }
    }
}

/// How often a search sent its datagrams, or began to.
pub open spec fn rounds(events: Seq<SearchEventView>) -> nat
    decreases events.len(),
{
    if events.len() == 0 {
        0
    } else {
        let before = search_after(SearchView::OpenSocket, events.drop_last());
        let after = search_after(SearchView::OpenSocket, events);
        if after is SendAll && !(before is SendAll) {
            rounds(events.drop_last()) + 1
        } else {
            rounds(events.drop_last())
        }
    }
}

/// The list that a state holds, if it holds one.
pub open spec fn listed(state: SearchView) -> Option<Seq<Tv>> {
    match state {
        SearchView::SendAll { list } => Some(list.tvs),
        SearchView::SendDial { list } => Some(list.tvs),
        SearchView::Continue { list } => Some(list.tvs),
        SearchView::Resend { list } => Some(list.tvs),
        SearchView::Receive { list } => Some(list.tvs),
        SearchView::Park { list } => Some(list.tvs),
        SearchView::Done { tvs } => Some(tvs),
        _ => None,
    }
}

/// Whether the searches were sent again, of a state that still searches.
pub open spec fn resent_in(state: SearchView) -> Option<bool> {
    match state {
        SearchView::SendAll { list } => Some(list.resent),
        SearchView::SendDial { list } => Some(list.resent),
        SearchView::Continue { list } => Some(list.resent),
        SearchView::Resend { list } => Some(list.resent),
        SearchView::Receive { list } => Some(list.resent),
        SearchView::Park { list } => Some(list.resent),
        _ => None,
    }
}

/// Whatever happens, a search lists what the datagrams that it received speak
/// for, and its states are well-formed.
pub proof fn law_search_lists_what_it_received(events: Seq<SearchEventView>)
    ensures
        ({
            let state = search_after(SearchView::OpenSocket, events);
            &&& search_wf(state)
            &&& listed(state) matches Some(tvs) ==> tvs == heard(received(events))
            &&& (state is OpenSocket || state is JoinGroup || state is Unblock) ==> received(
                events,
            ).len() == 0
        }),
    decreases events.len(),
{
    if events.len() > 0 {
        let earlier = events.drop_last();
        law_search_lists_what_it_received(earlier);
        let before = search_after(SearchView::OpenSocket, earlier);
        match (before, events.last()) {
            (SearchView::Receive { .. }, SearchEventView::Datagram { reply, source }) => {
                assert(received(events).drop_last() =~= received(earlier));
            },
            (SearchView::Unblock, _) => {
                assert(heard(received(earlier)) =~= Seq::empty());
            },
            _ => {},
        }
    }
}

/// Whatever happens, a search sends its datagrams at most twice.
pub proof fn law_searches_are_sent_at_most_twice(events: Seq<SearchEventView>)
    ensures
        rounds(events) <= 2,
{
    lemma_rounds(events);
}

proof fn lemma_rounds(events: Seq<SearchEventView>)
    ensures
        ({
            let state = search_after(SearchView::OpenSocket, events);
            &&& rounds(events) <= 2
            &&& (state is OpenSocket || state is JoinGroup || state is Unblock) ==> rounds(events)
                == 0
            &&& resent_in(state) == Some(false) ==> rounds(events) == 1
            &&& resent_in(state) == Some(true) ==> rounds(events) == 2
        }),
    decreases events.len(),
{
    if events.len() > 0 {
        lemma_rounds(events.drop_last());
    }
}

/// Whatever happens, a search has sent its datagrams once until it notes that it
/// sends them again, and exactly twice from then on.
pub proof fn law_searches_are_sent_exactly_twice(events: Seq<SearchEventView>)
    ensures
        resent_in(search_after(SearchView::OpenSocket, events)) == Some(false) ==> rounds(events)
            == 1,
        resent_in(search_after(SearchView::OpenSocket, events)) == Some(true) ==> rounds(events)
            == 2,
{
    lemma_rounds(events);
}

/// A search that has not sent its datagrams again does so once the time has
/// come.
pub proof fn law_searches_are_sent_again(list: DiscoveryView, elapsed: u64)
    requires
        !list.resent,
        elapsed >= DISCOVERY_RESEND_AFTER,
    ensures
        search_next(SearchView::Resend { list }, SearchEventView::Clock { elapsed }) is SendAll,
{
}

/// Once its window is over, a search ends with the list that it has when it next
/// asks whether to go on, which it does after each datagram and after each rest,
/// and it rests when no datagram waits. A search that was sent again, or could
/// not be, goes on to listen.
pub proof fn law_searches_end(
    list: DiscoveryView,
    elapsed: u64,
    reply: Seq<u8>,
    source: Source,
    sent: bool,
)
    requires
        elapsed >= DISCOVERY_WINDOW,
    ensures
        search_next(SearchView::Continue { list }, SearchEventView::Clock { elapsed }) == (
        SearchView::Done { tvs: list.tvs }),
        search_next(SearchView::Park { list }, SearchEventView::Rested) is Continue,
        search_next(
            SearchView::Receive { list },
            SearchEventView::Datagram { reply, source },
        ) is Continue,
        search_next(SearchView::Receive { list }, SearchEventView::Silence) is Park,
        list.resent ==> search_next(
            SearchView::Resend { list },
            SearchEventView::Clock { elapsed },
        ) == (SearchView::Receive { list }),
        list.resent ==> search_next(SearchView::SendAll { list }, SearchEventView::Sent { sent })
            == if sent {
            SearchView::SendDial { list }
        } else {
            SearchView::Receive { list }
        },
        list.resent ==> search_next(SearchView::SendDial { list }, SearchEventView::Sent { sent })
            == (SearchView::Receive { list }),
{
}

/// How many steps a search takes at most until it ends, once its window is over.
pub open spec fn steps_left(state: SearchView) -> nat {
    match state {
        SearchView::OpenSocket => 6,
        SearchView::JoinGroup => 5,
        SearchView::Unblock => 4,
        SearchView::SendAll { list } => if list.resent {
            5
        } else {
            3
        },
        SearchView::SendDial { list } => if list.resent {
            4
        } else {
            2
        },
        SearchView::Continue { .. } => 1,
        SearchView::Resend { list } => if list.resent {
            4
        } else {
            6
        },
        SearchView::Receive { .. } => 3,
        SearchView::Park { .. } => 2,
        SearchView::Done { .. } => 0,
        SearchView::Failed { .. } => 0,
    }
}

/// Whether the window is over whenever the clock is read.
pub open spec fn window_over(events: Seq<SearchEventView>) -> bool {
    forall|i: int|
        0 <= i < events.len() ==> (#[trigger] events[i] matches SearchEventView::Clock { elapsed }
            ==> elapsed >= DISCOVERY_WINDOW)
}

/// How many of `events` a search waits for: the others change nothing.
pub open spec fn steps(state: SearchView, events: Seq<SearchEventView>) -> nat
    decreases events.len(),
{
    if events.len() == 0 {
        0
    } else if search_after(state, events) == search_after(state, events.drop_last()) {
        steps(state, events.drop_last())
    } else {
        steps(state, events.drop_last()) + 1
    }
}

/// Every path of a search is bounded: once its window is over, it takes at most
/// six more steps, wherever it stands and whatever happens, and only a search
/// that has ended has none left.
pub proof fn law_every_path_is_bounded(state: SearchView, events: Seq<SearchEventView>)
    requires
        window_over(events),
    ensures
        steps(state, events) + steps_left(search_after(state, events)) <= steps_left(state) <= 6,
        steps_left(state) == 0 <==> state is Done || state is Failed,
    decreases events.len(),
{
    if events.len() > 0 {
        let earlier = events.drop_last();
        assert forall|i: int| 0 <= i < earlier.len() implies (
        #[trigger] earlier[i] matches SearchEventView::Clock { elapsed } ==> elapsed
            >= DISCOVERY_WINDOW) by {
            assert(earlier[i] == events[i]);
        }
        law_every_path_is_bounded(state, earlier);
        assert(events[events.len() - 1] == events.last());
    }
}

/// A search is sent to port 1900 of the group 239.255.255.250, listens for three
/// seconds, is sent again after one, rests for a twentieth of one, and lists
/// sixteen televisions at most.
pub proof fn law_the_bounds_of_a_search()
    ensures
        SSDP_GROUP == (239u8, 255u8, 255u8, 250u8),
        SSDP_PORT == 1900,
        DISCOVERY_WINDOW == 3000,
        DISCOVERY_RESEND_AFTER == 1000,
        DISCOVERY_PARK == 50,
        DISCOVERY_LIMIT == 16,
{
}

/// Each search is a request line and four headers, closed by an empty line: the
/// group and port that it goes to, the extension that it wants, one second to
/// answer in, and what is searched for.
#[verifier::spinoff_prover]
#[verifier::rlimit(40)]
pub proof fn law_the_searches_are_well_formed_requests()
    ensures
        SSDP_SEARCH_ALL@ == crate::ssdp::message_of(
            seq![
                "M-SEARCH * HTTP/1.1"@,
                "HOST: 239.255.255.250:1900"@,
                "MAN: \"ssdp:discover\""@,
                "MX: 1"@,
                "ST: ssdp:all"@,
                Seq::empty(),
                Seq::empty(),
            ],
        ),
        SSDP_SEARCH_DIAL@ == crate::ssdp::message_of(
            seq![
                "M-SEARCH * HTTP/1.1"@,
                "HOST: 239.255.255.250:1900"@,
                "MAN: \"ssdp:discover\""@,
                "MX: 1"@,
                "ST: urn:dial-multiscreen-org:service:dial:1"@,
                Seq::empty(),
                Seq::empty(),
            ],
        ),
{
    let end = seq!['\r', '\n'];
    let line = "M-SEARCH * HTTP/1.1"@;
    let host = "HOST: 239.255.255.250:1900"@;
    let man = "MAN: \"ssdp:discover\""@;
    let mx = "MX: 1"@;
    let all = "ST: ssdp:all"@;
    let dial = "ST: urn:dial-multiscreen-org:service:dial:1"@;
    lemma_five_lines(line, host, man, mx, all);
    lemma_five_lines(line, host, man, mx, dial);
    assert(SSDP_SEARCH_ALL@ == line + end + (host + end + (man + end + (mx + end + (all + end
        + end))))) by {
        reveal_strlit("M-SEARCH * HTTP/1.1");
        reveal_strlit("HOST: 239.255.255.250:1900");
        reveal_strlit("MAN: \"ssdp:discover\"");
        reveal_strlit("MX: 1");
        reveal_strlit("ST: ssdp:all");
        reveal_strlit(
            "M-SEARCH * HTTP/1.1\r\nHOST: 239.255.255.250:1900\r\nMAN: \"ssdp:discover\"\r\nMX: 1\r\nST: ssdp:all\r\n\r\n",
        );
        assert(SSDP_SEARCH_ALL@ =~= line + end + (host + end + (man + end + (mx + end + (all + end
            + end)))));
    }
    assert(SSDP_SEARCH_DIAL@ == line + end + (host + end + (man + end + (mx + end + (dial + end
        + end))))) by {
        reveal_strlit("M-SEARCH * HTTP/1.1");
        reveal_strlit("HOST: 239.255.255.250:1900");
        reveal_strlit("MAN: \"ssdp:discover\"");
        reveal_strlit("MX: 1");
        reveal_strlit("ST: urn:dial-multiscreen-org:service:dial:1");
        reveal_strlit(
            "M-SEARCH * HTTP/1.1\r\nHOST: 239.255.255.250:1900\r\nMAN: \"ssdp:discover\"\r\nMX: 1\r\nST: urn:dial-multiscreen-org:service:dial:1\r\n\r\n",
        );
        assert(SSDP_SEARCH_DIAL@ =~= line + end + (host + end + (man + end + (mx + end + (dial + end
            + end)))));
    }
}

proof fn lemma_line_in_front(line: Seq<char>, lines: Seq<Seq<char>>)
    requires
        lines.len() > 0,
    ensures
        crate::ssdp::message_of(seq![line] + lines) == line + seq!['\r', '\n']
            + crate::ssdp::message_of(lines),
{
    assert((seq![line] + lines).drop_first() =~= lines);
}

proof fn lemma_five_lines(a: Seq<char>, b: Seq<char>, c: Seq<char>, d: Seq<char>, e: Seq<char>)
    ensures
        ({
            let end = seq!['\r', '\n'];
            crate::ssdp::message_of(seq![a, b, c, d, e, Seq::empty(), Seq::empty()]) == a + end + (b
                + end + (c + end + (d + end + (e + end + end))))
        }),
{
    let end = seq!['\r', '\n'];
    let none = Seq::<char>::empty();
    let l1 = seq![none];
    let l2 = seq![none] + l1;
    let l3 = seq![e] + l2;
    let l4 = seq![d] + l3;
    let l5 = seq![c] + l4;
    let l6 = seq![b] + l5;
    lemma_line_in_front(none, l1);
    assert(crate::ssdp::message_of(l2) =~= end);
    lemma_line_in_front(e, l2);
    lemma_line_in_front(d, l3);
    lemma_line_in_front(c, l4);
    lemma_line_in_front(b, l5);
    lemma_line_in_front(a, l6);
    assert(seq![a] + l6 =~= seq![a, b, c, d, e, none, none]);
}

/// How a search begins: with a socket, then with the group whether or not it
/// could be joined, then with a socket that does not block, and then with an
/// empty list that was not sent again.
pub proof fn law_searches_begin_with_an_empty_list(events: Seq<SearchEventView>)
    requires
        events == seq![
            SearchEventView::Opened { opened: true },
            SearchEventView::Joined,
            SearchEventView::Unblocked { unblocked: true },
        ],
    ensures
        search_after(SearchView::OpenSocket, events) == (SearchView::SendAll {
            list: DiscoveryView { tvs: Seq::empty(), resent: false },
        }),
        search_next(SearchView::OpenSocket, SearchEventView::Opened { opened: false }) == (
        SearchView::Failed {
            message: "Could not open a local network socket to search for TVs"@,
        }),
        search_next(SearchView::Unblock, SearchEventView::Unblocked { unblocked: false }) == (
        SearchView::Failed { message: "Could not prepare the local TV search"@ }),
{
    let e2 = events.drop_last();
    let e1 = e2.drop_last();
    assert(e1.drop_last() =~= Seq::empty());
    assert(search_after(SearchView::OpenSocket, e1.drop_last()) == SearchView::OpenSocket);
    assert(search_after(SearchView::OpenSocket, e1) == SearchView::JoinGroup);
    assert(e2.last() == events[1]);
    assert(search_after(SearchView::OpenSocket, e2) == SearchView::Unblock);
}

/// A round is the search for every device and then the one for the casting
/// service, and loses nothing of the list. Without the first round there is no
/// search, but a second one may fail.
pub proof fn law_a_round_is_both_searches(list: DiscoveryView)
    ensures
        search_next(SearchView::SendAll { list }, SearchEventView::Sent { sent: true }) == (
        SearchView::SendDial { list }),
        list.resent ==> {
            &&& search_next(SearchView::SendDial { list }, SearchEventView::Sent { sent: true }) == (
            SearchView::Receive { list })
            &&& search_next(SearchView::SendAll { list }, SearchEventView::Sent { sent: false }) == (
            SearchView::Receive { list })
            &&& search_next(SearchView::SendDial { list }, SearchEventView::Sent { sent: false })
                == (SearchView::Receive { list })
        },
        !list.resent ==> {
            &&& search_next(SearchView::SendDial { list }, SearchEventView::Sent { sent: true }) == (
            SearchView::Continue { list })
            &&& search_next(SearchView::SendAll { list }, SearchEventView::Sent { sent: false }) == (
            SearchView::Failed { message: "Could not send the TV search on the local network"@ })
            &&& search_next(SearchView::SendDial { list }, SearchEventView::Sent { sent: false })
                == (SearchView::Failed {
                message: "Could not send the TV search on the local network"@,
            })
        },
{
}

/// A search with fewer than sixteen televisions goes on for three seconds, with
/// the list that it has, and ends with that list when they are over or sixteen
/// are listed.
pub proof fn law_searches_go_on_until_the_window_ends(list: DiscoveryView, elapsed: u64)
    ensures
        search_next(SearchView::Continue { list }, SearchEventView::Clock { elapsed })
            == if list.tvs.len() < 16 && elapsed < 3000 {
            SearchView::Resend { list }
        } else {
            SearchView::Done { tvs: list.tvs }
        },
{
}

/// After a second, and not before it, a search that was sent once is sent again,
/// with the list that it has; otherwise it listens.
pub proof fn law_searches_are_sent_again_after_a_second(list: DiscoveryView, elapsed: u64)
    ensures
        search_next(SearchView::Resend { list }, SearchEventView::Clock { elapsed })
            == if !list.resent && elapsed >= 1000 {
            SearchView::SendAll { list: DiscoveryView { tvs: list.tvs, resent: true } }
        } else {
            SearchView::Receive { list }
        },
{
}

/// A datagram for a television whose host is not listed puts it at the end of
/// the list, and any other leaves the list as it is. Without a datagram the
/// search rests and then goes on with the same list.
pub proof fn law_new_hosts_go_to_the_end_of_the_list(
    list: DiscoveryView,
    reply: Seq<u8>,
    source: Source,
)
    ensures
        ({
            let next = search_next(
                SearchView::Receive { list },
                SearchEventView::Datagram { reply, source },
            );
            match crate::ssdp::reply_tv(reply, source) {
                Some(tv) => if exists|i: int|
                    0 <= i < list.tvs.len() && (#[trigger] list.tvs[i]).host == tv.host {
                    next == (SearchView::Continue { list })
                } else {
                    next == (SearchView::Continue {
                        list: DiscoveryView { tvs: list.tvs.push(tv), resent: list.resent },
                    })
                },
                None => next == (SearchView::Continue { list }),
            }
        }),
        search_next(SearchView::Receive { list }, SearchEventView::Silence) == (SearchView::Park {
            list,
        }),
        search_next(SearchView::Park { list }, SearchEventView::Rested) == (SearchView::Continue {
            list,
        }),
{
}

/// Whatever happens, a search that ends with fewer than sixteen televisions has
/// seen the clock at three seconds or later.
pub proof fn law_short_lists_took_the_whole_window(events: Seq<SearchEventView>)
    ensures
        search_after(SearchView::OpenSocket, events) matches SearchView::Done { tvs } ==> tvs.len()
            >= 16 || exists|i: int|
            0 <= i < events.len() && (#[trigger] events[i] matches SearchEventView::Clock {
                elapsed,
            } && elapsed >= 3000),
    decreases events.len(),
{
    if events.len() > 0 {
        let earlier = events.drop_last();
        law_short_lists_took_the_whole_window(earlier);
        let before = search_after(SearchView::OpenSocket, earlier);
        if let SearchView::Done { tvs } = before {
            if tvs.len() < 16 {
                let i = choose|i: int|
                    0 <= i < earlier.len() && (#[trigger] earlier[i] matches SearchEventView::Clock {
                        elapsed,
                    } && elapsed >= 3000);
                assert(events[i] == earlier[i]);
            }
        } else {
            assert(events[events.len() - 1] == events.last());
        }
    }
}

/// Whatever happens, the datagrams go out a second time only after the clock has
/// shown a second.
pub proof fn law_the_second_round_waits_for_a_second(events: Seq<SearchEventView>)
    requires
        rounds(events) >= 2,
    ensures
        exists|i: int|
            0 <= i < events.len() && (#[trigger] events[i] matches SearchEventView::Clock { elapsed }
                && elapsed >= 1000),
    decreases events.len(),
{
    if events.len() > 0 {
        let earlier = events.drop_last();
        let before = search_after(SearchView::OpenSocket, earlier);
        lemma_rounds(earlier);
        if rounds(earlier) >= 2 {
            law_the_second_round_waits_for_a_second(earlier);
            let i = choose|i: int|
                0 <= i < earlier.len() && (#[trigger] earlier[i] matches SearchEventView::Clock {
                    elapsed,
                } && elapsed >= 1000);
            assert(events[i] == earlier[i]);
        } else {
            assert(before is Resend);
            assert(events[events.len() - 1] == events.last());
        }
    }
}

/// Whatever happens, a search holds sixteen televisions at most, each with a host
/// of its own, and fewer only where every datagram that it received for a
/// television has its host in the list.
pub proof fn law_lists_are_complete_up_to_sixteen(events: Seq<SearchEventView>, i: int)
    requires
        0 <= i < received(events).len(),
    ensures
        listed(search_after(SearchView::OpenSocket, events)) matches Some(tvs) ==> {
            &&& tvs.len() <= 16
            &&& forall|j: int, k: int|
                0 <= j < k < tvs.len() ==> (#[trigger] tvs[j]).host != (#[trigger] tvs[k]).host
            &&& tvs.len() < 16 ==> (crate::ssdp::reply_tv(
                received(events)[i].0,
                received(events)[i].1,
            ) matches Some(tv) ==> exists|k: int|
                0 <= k < tvs.len() && (#[trigger] tvs[k]).host == tv.host)
        },
{
    law_search_lists_what_it_received(events);
    law_each_host_is_listed_once(received(events));
    if heard(received(events)).len() < 16 {
        law_every_answer_is_listed(received(events), i);
    }
}

/// An entry is the one that the first datagram for its host gave, and entries
/// stand in the order of those datagrams.
pub proof fn law_first_answers_are_listed_in_order(replies: Seq<(Seq<u8>, Source)>, k: int)
    requires
        0 <= k < heard(replies).len(),
    ensures
        exists|i: int| #[trigger] gave_first(replies, i, heard(replies), k),
    decreases replies.len(),
{
    let earlier = replies.drop_last();
    let tvs = heard(earlier);
    if k < tvs.len() {
        law_first_answers_are_listed_in_order(earlier, k);
        let i = choose|i: int| #[trigger] gave_first(earlier, i, tvs, k);
        assert(heard(replies)[k] == tvs[k]);
        assert(replies[i] == earlier[i]);
        assert forall|j: int| 0 <= j < i implies (
        #[trigger] entry_of(replies, j) matches Some(tv) ==> tv.host != heard(replies)[k].host
            && exists|m: int| 0 <= m < k && (#[trigger] heard(replies)[m]).host == tv.host) by {
            assert(replies[j] == earlier[j]);
            assert(entry_of(earlier, j) == entry_of(replies, j));
            if let Some(tv) = entry_of(earlier, j) {
                let m = choose|m: int| 0 <= m < k && (#[trigger] tvs[m]).host == tv.host;
                assert(heard(replies)[m] == tvs[m]);
            }
        }
        assert(gave_first(replies, i, heard(replies), k));
    } else {
        let i = replies.len() - 1;
        assert(replies[i] == replies.last());
        assert forall|j: int| 0 <= j < i implies (
        #[trigger] entry_of(replies, j) matches Some(tv) ==> tv.host != heard(replies)[k].host
            && exists|m: int| 0 <= m < k && (#[trigger] heard(replies)[m]).host == tv.host) by {
            assert(replies[j] == earlier[j]);
            if let Some(tv) = entry_of(replies, j) {
                law_every_answer_is_listed(earlier, j);
                let m = choose|m: int| 0 <= m < tvs.len() && (#[trigger] tvs[m]).host == tv.host;
                assert(heard(replies)[m] == tvs[m]);
            }
        }
        assert(gave_first(replies, i, heard(replies), k));
    }
}

/// What a datagram gives.
pub open spec fn entry_of(replies: Seq<(Seq<u8>, Source)>, i: int) -> Option<Tv> {
    crate::ssdp::reply_tv(replies[i].0, replies[i].1)
}

/// Whether datagram `i` gave entry `k` of the list, and each one before it that
/// gave a television gave one that is listed before.
pub open spec fn gave_first(
    replies: Seq<(Seq<u8>, Source)>,
    i: int,
    tvs: Seq<Tv>,
    k: int,
) -> bool {
    &&& 0 <= i < replies.len()
    &&& entry_of(replies, i) == Some(tvs[k])
    &&& forall|j: int|
        0 <= j < i ==> (#[trigger] entry_of(replies, j) matches Some(tv) ==> tv.host != tvs[k].host
            && exists|m: int| 0 <= m < k && (#[trigger] tvs[m]).host == tv.host)
}

/// Whether a state waits for this kind of event.
pub open spec fn waits_for(state: SearchView, event: SearchEventView) -> bool {
    ||| state is OpenSocket && event is Opened
    ||| state is JoinGroup && event is Joined
    ||| state is Unblock && event is Unblocked
    ||| (state is SendAll || state is SendDial) && event is Sent
    ||| (state is Continue || state is Resend) && event is Clock
    ||| state is Receive && (event is Datagram || event is Silence)
    ||| state is Park && event is Rested
}

/// What a search does not wait for leaves it as it is; so an end is final.
pub proof fn law_other_events_leave_a_search_as_it_is(state: SearchView, event: SearchEventView)
    requires
        !waits_for(state, event),
    ensures
        search_next(state, event) == state,
{
}

/// The list of a search is what is written, and its text is the answer; a search
/// that stopped or failed, and a list that could not be written, say so.
pub proof fn law_the_list_that_was_found_is_the_answer(
    tvs: Vec<DiscoveredTv>,
    text: String,
    reason: String,
    r: Discovering,
)
    ensures
        discover_next(Discovering::Search, DiscoverEvent::Found { tvs }, r) ==> r == (
        Discovering::Encode { tvs }),
        discover_next(
            Discovering::Encode { tvs },
            DiscoverEvent::Encoded { text: Some(text) },
            r,
        ) ==> r == (Discovering::Done { text }),
        discover_next(Discovering::Search, DiscoverEvent::NoSearch { message: reason }, r) ==> r
            == (Discovering::Failed { message: reason }),
        discover_next(Discovering::Search, DiscoverEvent::Stopped, r) ==> (r matches Discovering::Failed {
            message,
        } && message@ == "TV discovery stopped before finishing"@),
        discover_next(Discovering::Encode { tvs }, DiscoverEvent::Encoded { text: None }, r) ==> (
        r matches Discovering::Failed { message } && message@
            == "Could not encode the discovered TV list"@),
{
}

/// The mathematical value of a search, and of what happens to it, holds all that
/// these hold.
pub proof fn law_nothing_of_a_search_is_left_out(
    list: Discovery,
    tvs: Vec<DiscoveredTv>,
    i: int,
    text: String,
    reply: Vec<u8>,
    source: Source,
    elapsed: u64,
    flag: bool,
)
    requires
        0 <= i < tvs@.len(),
    ensures
        list@.resent == list.resent && list@.tvs.len() == list.found@.len(),
        forall|k: int|
            0 <= k < list.found@.len() ==> (#[trigger] list@.tvs[k]).host == list.found@[k].host@
                && list@.tvs[k].name == list.found@[k].name@,
        (Searching::SendAll { list })@ == (SearchView::SendAll { list: list@ }),
        (Searching::SendDial { list })@ == (SearchView::SendDial { list: list@ }),
        (Searching::Continue { list })@ == (SearchView::Continue { list: list@ }),
        (Searching::Resend { list })@ == (SearchView::Resend { list: list@ }),
        (Searching::Receive { list })@ == (SearchView::Receive { list: list@ }),
        (Searching::Park { list })@ == (SearchView::Park { list: list@ }),
        (Searching::Done { tvs })@ matches SearchView::Done { tvs: seen } && seen.len() == tvs@.len()
            && seen[i].host == tvs@[i].host@ && seen[i].name == tvs@[i].name@,
        (Searching::Failed { message: text })@ == (SearchView::Failed { message: text@ }),
        Searching::OpenSocket@ == SearchView::OpenSocket,
        Searching::JoinGroup@ == SearchView::JoinGroup,
        Searching::Unblock@ == SearchView::Unblock,
        (SearchEvent::Datagram { reply, source })@ == (SearchEventView::Datagram {
            reply: reply@,
            source,
        }),
        (SearchEvent::Clock { elapsed })@ == (SearchEventView::Clock { elapsed }),
        (SearchEvent::Sent { sent: flag })@ == (SearchEventView::Sent { sent: flag }),
        (SearchEvent::Opened { opened: flag })@ == (SearchEventView::Opened { opened: flag }),
        (SearchEvent::Unblocked { unblocked: flag })@ == (SearchEventView::Unblocked {
            unblocked: flag,
        }),
        SearchEvent::Joined@ == SearchEventView::Joined,
        SearchEvent::Silence@ == SearchEventView::Silence,
        SearchEvent::Rested@ == SearchEventView::Rested,
{
}

/// What the way to the answer does not wait for leaves it as it is.
pub proof fn law_other_events_leave_the_answer_as_it_is(
    state: Discovering,
    event: DiscoverEvent,
    r: Discovering,
)
    requires
        discover_next(state, event, r),
        state is Done || state is Failed || (state is Search && event is Encoded) || (state is Encode
            && !(event is Encoded)),
    ensures
        r == state,
{
}

} // verus!
