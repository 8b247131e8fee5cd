//! The decisions of the tray app: what the tooltip says, when a new scan is
//! worth publishing, and what a click or a menu entry does.
use vstd::prelude::*;

use crate::net::Ipv4Addr;
use crate::scanner::{build, lists_servers, RawSocket, ServerEntry, Snapshot};
use crate::text::{chars_of, decimal_text, push_decimal, push_str, same_text, string_from_chars};

verus! {

/// The number of entries shown without "Show all".
pub open spec fn shown_count(servers: Seq<ServerEntry>) -> nat
    decreases servers.len(),
{
    if servers.len() == 0 {
        0
    } else {
        shown_count(servers.drop_last()) + if !servers.last().hidden {
            1nat
        } else {
            0nat
        }
    }
}

/// The number of shown entries that a phone can reach.
pub open spec fn shown_on_lan_count(servers: Seq<ServerEntry>) -> nat
    decreases servers.len(),
{
    if servers.len() == 0 {
        0
    } else {
        shown_on_lan_count(servers.drop_last()) + if !servers.last().hidden
            && servers.last().reachable_from_lan {
            1nat
        } else {
            0nat
        }
    }
}

/// The tray tooltip for a snapshot.
pub open spec fn tooltip_text(snap: Snapshot) -> Seq<char> {
    let ip = match snap.lan_ip {
        Some(s) => s@,
        None => "no network"@,
    };
    let n = shown_count(snap.servers@);
    if n == 0 {
        "Localhost Linker · no dev servers · "@ + ip
    } else {
        "Localhost Linker · "@ + decimal_text(n) + " server"@ + (if n == 1 {
            Seq::empty()
        } else {
            "s"@
        }) + " ("@ + decimal_text(shown_on_lan_count(snap.servers@)) + " on LAN) · "@ + ip
    }
}

/// The tray tooltip: how many servers are shown, how many of them are on the
/// LAN, and the LAN address.
pub fn tooltip_for(snap: &Snapshot) -> (r: String)
    ensures
        r@ == tooltip_text(*snap),
{
    let n = snap.servers.len();
    let mut visible: usize = 0;
    let mut reachable: usize = 0;
    for i in 0..n
        invariant
            n == snap.servers@.len(),
            visible == shown_count(snap.servers@.take(i as int)),
            reachable == shown_on_lan_count(snap.servers@.take(i as int)),
            visible <= i,
            reachable <= i,
    {
        let e = &snap.servers[i];
        assert(snap.servers@.take(i + 1).drop_last() =~= snap.servers@.take(i as int));
        if !e.hidden {
            visible = visible + 1;
            if e.reachable_from_lan {
                reachable = reachable + 1;
            }
        }
    }
    assert(snap.servers@.take(n as int) =~= snap.servers@);
    let mut out: Vec<char> = Vec::new();
    if visible == 0 {
        push_str(&mut out, "Localhost Linker · no dev servers · ");
    } else {
        push_str(&mut out, "Localhost Linker · ");
        push_decimal(&mut out, visible as u64);
        push_str(&mut out, " server");
        if visible != 1 {
            push_str(&mut out, "s");
        }
        push_str(&mut out, " (");
        push_decimal(&mut out, reachable as u64);
        push_str(&mut out, " on LAN) · ");
    }
    match &snap.lan_ip {
        Some(ip) => push_str(&mut out, ip.as_str()),
        None => push_str(&mut out, "no network"),
    }
    assert(out@ =~= tooltip_text(*snap));
    string_from_chars(out.as_slice())
}

/// The LAN address as text, when there is one.
pub open spec fn lan_text_matches(text: Option<String>, lan_ip: Option<Ipv4Addr>) -> bool {
    match (text, lan_ip) {
        (Some(s), Some(ip)) => s@ == ip.spec_text(),
        (None, None) => true,
        _ => false,
    }
}

fn lan_text(lan_ip: Option<Ipv4Addr>) -> (r: Option<String>)
    ensures
        lan_text_matches(r, lan_ip),
{
    match lan_ip {
        Some(ip) => {
            let mut out: Vec<char> = Vec::new();
            ip.push_text(&mut out);
            assert(out@ =~= ip.spec_text());
            Some(string_from_chars(out.as_slice()))
        },
        None => None,
    }
}

/// The snapshot of a scan that read the socket table.
pub fn scan_snapshot(sockets: &[RawSocket], lan_ip: Option<Ipv4Addr>, scanned_at: u64) -> (r:
    Snapshot)
    ensures
        lan_text_matches(r.lan_ip, lan_ip),
        lists_servers(r.servers@, sockets@, lan_ip),
        r.scanned_at == scanned_at,
        r.error is None,
{
    Snapshot {
        lan_ip: lan_text(lan_ip),
        servers: build(sockets, lan_ip),
        scanned_at,
        error: None,
    }
}

/// The snapshot of a scan that could not read the socket table.
pub fn error_snapshot(error: String, lan_ip: Option<Ipv4Addr>, scanned_at: u64) -> (r: Snapshot)
    ensures
        lan_text_matches(r.lan_ip, lan_ip),
        r.servers@.len() == 0,
        r.scanned_at == scanned_at,
        r.error == Some(error),
{
    Snapshot { lan_ip: lan_text(lan_ip), servers: Vec::new(), scanned_at, error: Some(error) }
}

/// What one poll of the socket table gave.
#[derive(Debug, Clone)]
pub enum ScanOutcome {
    /// The table was read; the fingerprint of the scan.
    Sockets { fingerprint: u64 },
    /// The table could not be read; why.
    Failed { error: String },
}

/// What the poller remembers of the last published scan.
pub struct Poller {
    last_fingerprint: Option<u64>,
    last_error: Option<String>,
}

/// The fingerprint and the error text that the poller remembers.
pub type PollMemory = (Option<u64>, Option<Seq<char>>);

/// Whether an outcome differs from what was last published.
pub open spec fn publishes(memory: PollMemory, outcome: ScanOutcome) -> bool {
    match outcome {
        ScanOutcome::Sockets { fingerprint } => memory.0 != Some(fingerprint),
        ScanOutcome::Failed { error } => memory.1 != Some(error@),
    }
}

/// What the poller remembers after an outcome: a published scan replaces the
/// fingerprint and forgets the error; a published error does the reverse.
pub open spec fn remembered(memory: PollMemory, outcome: ScanOutcome) -> PollMemory {
    if !publishes(memory, outcome) {
        memory
    } else {
        match outcome {
            ScanOutcome::Sockets { fingerprint } => (Some(fingerprint), None),
            ScanOutcome::Failed { error } => (None, Some(error@)),
        }
    }
}

impl View for Poller {
    type V = PollMemory;

    closed spec fn view(&self) -> PollMemory {
        (
            self.last_fingerprint,
            match self.last_error {
                Some(e) => Some(e@),
                None => None,
            },
        )
    }
}

impl Poller {
    /// A poller that has published nothing yet.
    pub fn new() -> (r: Poller)
        ensures
            r@ == (None::<u64>, None::<Seq<char>>),
    {
        Poller { last_fingerprint: None, last_error: None }
    }

    /// Takes one outcome and says whether to publish it: only when the scan or
    /// the error differs from the last one published.
    pub fn observe(&mut self, outcome: &ScanOutcome) -> (publish: bool)
        ensures
            publish == publishes(old(self)@, *outcome),
            final(self)@ == remembered(old(self)@, *outcome),
    {
        let last_fingerprint = self.last_fingerprint;
        let publish = match outcome {
            ScanOutcome::Sockets { fingerprint } => {
                let fp = *fingerprint;
                match last_fingerprint {
                    Some(f) => f != fp,
                    None => true,
                }
            },
            ScanOutcome::Failed { error } => match &self.last_error {
                Some(e) => !e.eq(error),
                None => true,
            },
        };
        if publish {
            match outcome {
                ScanOutcome::Sockets { fingerprint } => {
                    self.last_fingerprint = Some(*fingerprint);
                    self.last_error = None;
                },
                ScanOutcome::Failed { error } => {
                    self.last_error = Some(error.clone());
                    self.last_fingerprint = None;
                },
            }
        }
        publish
    }
}

/// Law: an outcome repeated right after itself is never published twice.
pub proof fn law_repeat_is_quiet(memory: PollMemory, outcome: ScanOutcome)
    ensures
        !publishes(remembered(memory, outcome), outcome),
{
}

/// The poller remembers at most one of a fingerprint and an error.
pub open spec fn remembers_one(memory: PollMemory) -> bool {
    !(memory.0 is Some && memory.1 is Some)
}

/// Law: the poller starts remembering nothing, and every outcome keeps it
/// remembering at most one of a fingerprint and an error.
pub proof fn law_remembers_one(memory: PollMemory, outcome: ScanOutcome)
    requires
        remembers_one(memory),
    ensures
        remembers_one(remembered(memory, outcome)),
        remembers_one((None::<u64>, None::<Seq<char>>)),
{
}

/// Law: after an error, the next successful scan is always published, even
/// when its fingerprint equals the one before the error.
pub proof fn law_recovery_is_published(memory: PollMemory, error: String, fingerprint: u64)
    requires
        remembers_one(memory),
    ensures
        publishes(
            remembered(memory, ScanOutcome::Failed { error }),
            ScanOutcome::Sockets { fingerprint },
        ),
{
}

/// What the poller remembers after observing `history` from the start.
pub open spec fn memory_after(history: Seq<ScanOutcome>) -> PollMemory
    decreases history.len(),
{
    if history.len() == 0 {
        (None, None)
    } else {
        remembered(memory_after(history.drop_last()), history.last())
    }
}

/// Whether the `k`-th outcome of `history` was published.
pub open spec fn published_at(history: Seq<ScanOutcome>, k: int) -> bool {
    publishes(memory_after(history.take(k)), history[k])
}

/// The fingerprint of the latest published outcome when that outcome was a
/// scan; none when it was an error, or when nothing was published yet.
pub open spec fn last_published_scan(history: Seq<ScanOutcome>) -> Option<u64>
    decreases history.len(),
{
    if history.len() == 0 {
        None
    } else if published_at(history, history.len() - 1) {
        match history.last() {
            ScanOutcome::Sockets { fingerprint } => Some(fingerprint),
            ScanOutcome::Failed { .. } => None,
        }
    } else {
        last_published_scan(history.drop_last())
    }
}

/// The error text of the latest published outcome when that outcome was an
/// error; none when it was a scan, or when nothing was published yet.
pub open spec fn last_published_error(history: Seq<ScanOutcome>) -> Option<Seq<char>>
    decreases history.len(),
{
    if history.len() == 0 {
        None
    } else if published_at(history, history.len() - 1) {
        match history.last() {
            ScanOutcome::Sockets { .. } => None,
            ScanOutcome::Failed { error } => Some(error@),
        }
    } else {
        last_published_error(history.drop_last())
    }
}

proof fn lemma_memory_after(history: Seq<ScanOutcome>)
    ensures
        memory_after(history) == (last_published_scan(history), last_published_error(history)),
        remembers_one(memory_after(history)),
    decreases history.len(),
{
    if history.len() > 0 {
        let init = history.drop_last();
        lemma_memory_after(init);
        assert(history.take(history.len() - 1) =~= init);
    }
}

/// Law, over the whole run of the polling loop: a scan is published exactly
/// when its fingerprint differs from that of the latest published outcome,
/// counting a published error as no fingerprint; an error is published exactly
/// when its text differs from that of the latest published outcome, counting
/// a published scan as no error. So the scan after a published error is
/// always published.
pub proof fn law_poll_history(history: Seq<ScanOutcome>, k: int)
    requires
        0 <= k < history.len(),
    ensures
        published_at(history, k) == match history[k] {
            ScanOutcome::Sockets { fingerprint } => last_published_scan(history.take(k)) != Some(
                fingerprint,
            ),
            ScanOutcome::Failed { error } => last_published_error(history.take(k)) != Some(error@),
        },
        history[k] is Failed && k + 1 < history.len() && history[k + 1] is Sockets ==> published_at(
            history,
            k + 1,
        ),
{
    lemma_memory_after(history.take(k));
    if k + 1 < history.len() {
        lemma_memory_after(history.take(k + 1));
        assert(history.take(k + 1).drop_last() =~= history.take(k));
        assert(history.take(k + 1).last() == history[k]);
    }
}

/// Law: a poller fed the outcomes of `history` one by one, from `Poller::new`,
/// remembers `memory_after(history)`, so each `observe` answers
/// `published_at` for its step.
pub proof fn law_poller_follows_history(history: Seq<ScanOutcome>, k: int)
    requires
        0 <= k < history.len(),
    ensures
        memory_after(history.take(k + 1)) == remembered(memory_after(history.take(k)), history[k]),
        memory_after(history.take(0)) == (None::<u64>, None::<Seq<char>>),
{
    assert(history.take(k + 1).drop_last() =~= history.take(k));
    assert(history.take(0) =~= Seq::<ScanOutcome>::empty());
}

/// What a left click on the tray icon does.
#[derive(Debug, Clone, Copy, PartialEq, Eq, Structural)]
pub enum TrayClick {
    /// Hide the open popup.
    Hide,
    /// Show the popup near the tray icon.
    Show,
    /// Nothing: the click closed the popup by taking focus from it.
    Ignore,
}

/// A tray click that lands within this many nanoseconds after the popup lost
/// focus is the user closing it, not reopening it.
pub const REOPEN_GRACE_NANOS: u128 = 250_000_000;

/// What a left click on the tray icon does, given whether the popup is
/// visible and how long ago it was last hidden.
pub fn tray_click(popup_visible: bool, hidden_nanos_ago: Option<u128>) -> (r: TrayClick)
    ensures
        r == if popup_visible {
            TrayClick::Hide
        } else if hidden_nanos_ago matches Some(t) && t < REOPEN_GRACE_NANOS {
            TrayClick::Ignore
        } else {
            TrayClick::Show
        },
{
    if popup_visible {
        return TrayClick::Hide;
    }
    let just_hidden = match hidden_nanos_ago {
        Some(t) => t < REOPEN_GRACE_NANOS,
        None => false,
    };
    if just_hidden {
        TrayClick::Ignore
    } else {
        TrayClick::Show
    }
}

/// What a tray menu entry does.
#[derive(Debug, Clone, Copy, PartialEq, Eq, Structural)]
pub enum MenuAction {
    /// "Show servers": show the popup at the screen corner.
    ShowServers,
    /// "Launch at login": flip the autostart setting.
    ToggleAutostart,
    /// "Quit".
    Quit,
    /// An entry this app does not know.
    Nothing,
}

/// What the tray menu entry with id `id` does.
pub fn menu_action(id: &str) -> (r: MenuAction)
    ensures
        r == if id@ == "open"@ {
            MenuAction::ShowServers
        } else if id@ == "autostart"@ {
            MenuAction::ToggleAutostart
        } else if id@ == "quit"@ {
            MenuAction::Quit
        } else {
            MenuAction::Nothing
        },
{
    let chars = chars_of(id);
    let open = chars_of("open");
    let autostart = chars_of("autostart");
    let quit = chars_of("quit");
    if same_text(chars.as_slice(), open.as_slice()) {
        MenuAction::ShowServers
    } else if same_text(chars.as_slice(), autostart.as_slice()) {
        MenuAction::ToggleAutostart
    } else if same_text(chars.as_slice(), quit.as_slice()) {
        MenuAction::Quit
    } else {
        MenuAction::Nothing
    }
}

/// With every entry hidden, none is shown.
proof fn lemma_all_hidden_none_shown(servers: Seq<ServerEntry>)
    requires
        forall|i: int| 0 <= i < servers.len() ==> (#[trigger] servers[i]).hidden,
    ensures
        shown_count(servers) == 0,
    decreases servers.len(),
{
    if servers.len() > 0 {
        let init = servers.drop_last();
        assert forall|i: int| 0 <= i < init.len() implies (#[trigger] init[i]).hidden by {
            assert(init[i] == servers[i]);
        }
        lemma_all_hidden_none_shown(init);
        assert(servers.last() == servers[servers.len() - 1]);
    }
}

/// The entries shown without "Show all" are counted, whatever the hidden
/// ones: the count is the number of entries that are not hidden.
proof fn lemma_shown_count_is_filter(servers: Seq<ServerEntry>)
    ensures
        shown_count(servers) == servers.filter(|e: ServerEntry| !e.hidden).len(),
    decreases servers.len(),
{
    reveal(Seq::filter);
    if servers.len() > 0 {
        lemma_shown_count_is_filter(servers.drop_last());
    }
}

/// The shown entries on the LAN are counted: the count is the number of
/// entries that are not hidden and are reachable.
proof fn lemma_shown_on_lan_count_is_filter(servers: Seq<ServerEntry>)
    ensures
        shown_on_lan_count(servers) == servers.filter(
            |e: ServerEntry| !e.hidden && e.reachable_from_lan,
        ).len(),
    decreases servers.len(),
{
    reveal(Seq::filter);
    if servers.len() > 0 {
        lemma_shown_on_lan_count_is_filter(servers.drop_last());
    }
}

/// Law: when no entry is shown (none at all, or only hidden plumbing such as
/// the services on port 135), the tooltip says "no dev servers" and the
/// address, however many hidden entries there are; otherwise it counts the
/// entries that are not hidden, and those of them reachable from the LAN.
pub proof fn law_tooltip_counts_shown_servers(snap: Snapshot)
    ensures
        (forall|i: int| 0 <= i < snap.servers@.len() ==> (#[trigger] snap.servers@[i]).hidden)
            ==> tooltip_text(snap) == "Localhost Linker · no dev servers · "@ + match snap.lan_ip {
            Some(s) => s@,
            None => "no network"@,
        },
        (exists|i: int| 0 <= i < snap.servers@.len() && !(#[trigger] snap.servers@[i]).hidden)
            ==> tooltip_text(snap) == "Localhost Linker · "@ + decimal_text(
            snap.servers@.filter(|e: ServerEntry| !e.hidden).len(),
        ) + " server"@ + (if snap.servers@.filter(|e: ServerEntry| !e.hidden).len() == 1 {
            Seq::empty()
        } else {
            "s"@
        }) + " ("@ + decimal_text(
            snap.servers@.filter(|e: ServerEntry| !e.hidden && e.reachable_from_lan).len(),
        ) + " on LAN) · "@ + match snap.lan_ip {
            Some(s) => s@,
            None => "no network"@,
        },
{
    lemma_shown_count_is_filter(snap.servers@);
    lemma_shown_on_lan_count_is_filter(snap.servers@);
    if forall|i: int| 0 <= i < snap.servers@.len() ==> (#[trigger] snap.servers@[i]).hidden {
        lemma_all_hidden_none_shown(snap.servers@);
    }
    if exists|i: int| 0 <= i < snap.servers@.len() && !(#[trigger] snap.servers@[i]).hidden {
        let i = choose|i: int| 0 <= i < snap.servers@.len() && !(#[trigger] snap.servers@[i]).hidden;
        let pred = |e: ServerEntry| !e.hidden;
        snap.servers@.lemma_filter_contains(pred, i);
    }
}

} // verus!
