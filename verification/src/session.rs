//! Session orchestrator: the single owner of all mutable session state. It
//! receives lifecycle messages from windows, keeps the open-window count and
//! the set of open URLs, selects privacy contexts for new windows, and after
//! every mutation hands back the exact log content to persist. All outward
//! work (window construction, file writes, releasing the process hold) is
//! returned as data, so the host performs it in the order given.

use vstd::prelude::*;
use vstd::string::StringExecFns;
use crate::privacy::ContextManager;
use crate::privacy::Privacy;
use crate::log::serialize_log;
use crate::log::parse_log;
use crate::log::save_urls;
use crate::log::load_urls;
use crate::strutil::contains_str;

verus! {

/// Messages accepted by the orchestrator.
pub enum Msg {
    /// A window navigated away: remove the first URL, insert the second.
    ChangeOpenedPage(String, String),
    /// Request one new window, on the given URL if any, in the given privacy
    /// class.
    NewApp(Option<String>, Privacy),
    /// All startup windows have been requested: drop the startup keep-alive
    /// hold so the process may exit once every window closes.
    ReleaseApp,
    /// A window showing the given URL was closed. A window that showed no
    /// page reports a string that is not in the open-URL set, so only the
    /// count changes.
    RemoveApp(String),
}

/// `Msg` with its strings abstracted to character sequences.
#[verifier::ext_equal]
pub enum MsgView {
    ChangeOpenedPage(Seq<char>, Seq<char>),
    NewApp(Option<Seq<char>>, Privacy),
    ReleaseApp,
    RemoveApp(Seq<char>),
}

impl View for Msg {
    type V = MsgView;

    open spec fn view(&self) -> MsgView {
        match self {
            Msg::ChangeOpenedPage(old_url, new_url) => MsgView::ChangeOpenedPage(
                old_url@,
                new_url@,
            ),
            Msg::NewApp(url, privacy) => MsgView::NewApp(
                match url {
                    Some(u) => Some(u@),
                    None => None,
                },
                *privacy,
            ),
            Msg::ReleaseApp => MsgView::ReleaseApp,
            Msg::RemoveApp(url) => MsgView::RemoveApp(url@),
        }
    }
}

/// Outward work the orchestrator asks the host to perform, in order.
pub enum Effect {
    /// Construct one window controller, bound to the given rendering context
    /// and seeded with the URLs of the previous session (empty for a private
    /// window).
    CreateWindow { url: Option<String>, privacy: Privacy, context: u64, seed: Vec<String> },
    /// Rewrite the persisted URL log with exactly this content.
    Persist(String),
    /// Release the startup keep-alive hold.
    Release,
}

/// `Effect` with its strings abstracted to character sequences.
#[verifier::ext_equal]
pub enum EffectView {
    CreateWindow { url: Option<Seq<char>>, privacy: Privacy, context: u64, seed: Seq<Seq<char>> },
    Persist(Seq<char>),
    Release,
}

impl View for Effect {
    type V = EffectView;

    open spec fn view(&self) -> EffectView {
        match self {
            Effect::CreateWindow { url, privacy, context, seed } => EffectView::CreateWindow {
                url: match url {
                    Some(u) => Some(u@),
                    None => None,
                },
                privacy: *privacy,
                context: *context,
                seed: seed.deep_view(),
            },
            Effect::Persist(content) => EffectView::Persist(content@),
            Effect::Release => EffectView::Release,
        }
    }
}

pub open spec fn msg_views(msgs: Seq<Msg>) -> Seq<MsgView> {
    msgs.map_values(|m: Msg| m@)
}

pub open spec fn effect_views(effects: Seq<Effect>) -> Seq<EffectView> {
    effects.map_values(|e: Effect| e@)
}

/// The orchestrator's abstract state.
#[verifier::ext_equal]
pub struct SessionView {
    pub app_count: nat,
    pub opened_urls: Seq<Seq<char>>,
    pub previous_opened_urls: Seq<Seq<char>>,
    pub holding: bool,
    pub contexts: ContextManager,
}

/// The session invariant: the open-URL set holds each URL once, and once the
/// last window is gone the set is empty.
pub open spec fn session_wf(s: SessionView) -> bool {
    &&& s.opened_urls.no_duplicates()
    &&& s.app_count == 0 ==> s.opened_urls.len() == 0
}

/// Set-insertion into the URL list: appended unless already present.
pub open spec fn spec_insert(urls: Seq<Seq<char>>, url: Seq<char>) -> Seq<Seq<char>> {
    if urls.contains(url) {
        urls
    } else {
        urls.push(url)
    }
}

/// Set-removal from the URL list: every occurrence dropped, order kept.
pub open spec fn spec_remove(urls: Seq<Seq<char>>, url: Seq<char>) -> Seq<Seq<char>>
    decreases urls.len(),
{
    if urls.len() == 0 {
        Seq::<Seq<char>>::empty()
    } else {
        let rest = spec_remove(urls.drop_last(), url);
        if urls.last() == url {
            rest
        } else {
            rest.push(urls.last())
        }
    }
}

/// One message handled: the state after it, and the effects it asks of the
/// host, in order.
pub open spec fn step(s: SessionView, msg: MsgView) -> (SessionView, Seq<EffectView>) {
    match msg {
        MsgView::ChangeOpenedPage(old_url, new_url) => {
            let opened = spec_insert(spec_remove(s.opened_urls, old_url), new_url);
            (
                SessionView { opened_urls: opened, ..s },
                seq![EffectView::Persist(serialize_log(opened))],
            )
        },
        MsgView::NewApp(url, privacy) => {
            let registers = privacy is Normal && url is Some;
            let opened = if registers {
                spec_insert(s.opened_urls, url->0)
            } else {
                s.opened_urls
            };
            let seed = if privacy is Normal {
                s.previous_opened_urls
            } else {
                Seq::<Seq<char>>::empty()
            };
            let window = EffectView::CreateWindow {
                url: url,
                privacy: privacy,
                context: s.contexts.spec_select(privacy),
                seed: seed,
            };
            (
                SessionView { app_count: s.app_count + 1, opened_urls: opened, ..s },
                if registers {
                    seq![EffectView::Persist(serialize_log(opened)), window]
                } else {
                    seq![window]
                },
            )
        },
        MsgView::ReleaseApp => (SessionView { holding: false, ..s }, seq![EffectView::Release]),
        MsgView::RemoveApp(url) => {
            let removed = spec_remove(s.opened_urls, url);
            let new_count: nat = if s.app_count >= 1 {
                (s.app_count - 1) as nat
            } else {
                0
            };
            if new_count == 0 {
                (
                    SessionView {
                        app_count: 0,
                        opened_urls: Seq::<Seq<char>>::empty(),
                        ..s
                    },
                    seq![
                        EffectView::Persist(serialize_log(removed)),
                        EffectView::Persist(Seq::<char>::empty()),
                    ],
                )
            } else {
                (
                    SessionView { app_count: new_count, opened_urls: removed, ..s },
                    seq![EffectView::Persist(serialize_log(removed))],
                )
            }
        },
    }
}

/// Membership after removal: everything but the removed URL, nothing else.
pub proof fn lemma_remove_contains(urls: Seq<Seq<char>>, url: Seq<char>, x: Seq<char>)
    ensures
        spec_remove(urls, url).contains(x) == (urls.contains(x) && x != url),
    decreases urls.len(),
{
    if urls.len() > 0 {
        lemma_remove_contains(urls.drop_last(), url, x);
        let rest = spec_remove(urls.drop_last(), url);
        assert(urls.contains(x) == (urls.drop_last().contains(x) || x == urls.last())) by {
            if urls.contains(x) {
                let i = choose|i: int| 0 <= i < urls.len() && urls[i] == x;
                if i < urls.len() - 1 {
                    assert(urls.drop_last()[i] == x);
                }
            }
            if urls.drop_last().contains(x) {
                let i = choose|i: int|
                    0 <= i < urls.drop_last().len() && urls.drop_last()[i] == x;
                assert(urls[i] == x);
            }
            if x == urls.last() {
                assert(urls[urls.len() - 1] == x);
            }
        }
        if urls.last() != url {
            let d = rest.push(urls.last());
            assert(d.contains(x) == (rest.contains(x) || x == urls.last())) by {
                if rest.contains(x) {
                    let j = choose|j: int| 0 <= j < rest.len() && rest[j] == x;
                    assert(d[j] == x);
                }
                if x == urls.last() {
                    assert(d[d.len() - 1] == x);
                }
                if d.contains(x) {
                    let j = choose|j: int| 0 <= j < d.len() && d[j] == x;
                    if j < d.len() - 1 {
                        assert(rest[j] == x);
                    }
                }
            }
        }
    }
}

/// What removal leaves: the URL gone, everything else kept once.
pub proof fn lemma_remove_props(urls: Seq<Seq<char>>, url: Seq<char>)
    requires
        urls.no_duplicates(),
    ensures
        spec_remove(urls, url).no_duplicates(),
        !spec_remove(urls, url).contains(url),
        forall|x: Seq<char>|
            x != url ==> spec_remove(urls, url).contains(x) == urls.contains(x),
        spec_remove(urls, url).len() <= urls.len(),
    decreases urls.len(),
{
    lemma_remove_contains(urls, url, url);
    assert forall|x: Seq<char>|
        x != url implies spec_remove(urls, url).contains(x) == urls.contains(x) by {
        lemma_remove_contains(urls, url, x);
    }
    if urls.len() > 0 {
        assert(urls.drop_last().no_duplicates());
        lemma_remove_props(urls.drop_last(), url);
        let rest = spec_remove(urls.drop_last(), url);
        if urls.last() != url {
            assert(!rest.contains(urls.last())) by {
                if rest.contains(urls.last()) {
                    lemma_remove_contains(urls.drop_last(), url, urls.last());
                    let i = choose|i: int|
                        0 <= i < urls.drop_last().len() && urls.drop_last()[i] == urls.last();
                    assert(urls[i] == urls[urls.len() - 1]);
                }
            }
            let d = rest.push(urls.last());
            assert forall|i: int, j: int|
                0 <= i < d.len() && 0 <= j < d.len() && i != j implies d[i] != d[j] by {
                if i == d.len() - 1 && d[j] == urls.last() {
                    assert(rest[j] == urls.last());
                }
                if j == d.len() - 1 && d[i] == urls.last() {
                    assert(rest[i] == urls.last());
                }
            }
            assert(d.no_duplicates());
        }
    }
}

/// What insertion adds: the URL present, everything else untouched.
pub proof fn lemma_insert_props(urls: Seq<Seq<char>>, url: Seq<char>)
    requires
        urls.no_duplicates(),
    ensures
        spec_insert(urls, url).no_duplicates(),
        spec_insert(urls, url).contains(url),
        forall|x: Seq<char>|
            spec_insert(urls, url).contains(x) == (urls.contains(x) || x == url),
{
    if !urls.contains(url) {
        let d = urls.push(url);
        assert(d.last() == url);
        assert forall|i: int, j: int|
            0 <= i < d.len() && 0 <= j < d.len() && i != j implies d[i] != d[j] by {
            if i == d.len() - 1 && d[j] == url {
                assert(urls[j] == url);
            }
            if j == d.len() - 1 && d[i] == url {
                assert(urls[i] == url);
            }
        }
        assert(d.no_duplicates());
        assert forall|x: Seq<char>|
            spec_insert(urls, url).contains(x) == (urls.contains(x) || x == url) by {
            if urls.contains(x) {
                let i = choose|i: int| 0 <= i < urls.len() && urls[i] == x;
                assert(d[i] == x);
            }
            if d.contains(x) && x != url {
                let i = choose|i: int| 0 <= i < d.len() && d[i] == x;
                assert(urls[i] == x);
            }
        }
    }
}

/// Handling any admissible message keeps the session invariant.
pub proof fn lemma_step_preserves_wf(s: SessionView, msg: MsgView)
    requires
        session_wf(s),
        msg is RemoveApp || msg is ChangeOpenedPage ==> s.app_count > 0,
    ensures
        session_wf(step(s, msg).0),
{
    match msg {
        MsgView::ChangeOpenedPage(old_url, new_url) => {
            lemma_remove_props(s.opened_urls, old_url);
            lemma_insert_props(spec_remove(s.opened_urls, old_url), new_url);
        },
        MsgView::NewApp(url, privacy) => {
            if privacy is Normal && url is Some {
                lemma_insert_props(s.opened_urls, url->0);
            }
        },
        MsgView::ReleaseApp => {},
        MsgView::RemoveApp(url) => {
            lemma_remove_props(s.opened_urls, url);
        },
    }
}

/// The session orchestrator. One per process; every window communicates with
/// it by messages only.
pub struct MessageServer {
    app_count: usize,
    opened_urls: Vec<String>,
    previous_opened_urls: Vec<String>,
    holding: bool,
    contexts: ContextManager,
}

impl View for MessageServer {
    type V = SessionView;

    closed spec fn view(&self) -> SessionView {
        SessionView {
            app_count: self.app_count as nat,
            opened_urls: self.opened_urls.deep_view(),
            previous_opened_urls: self.previous_opened_urls.deep_view(),
            holding: self.holding,
            contexts: self.contexts,
        }
    }
}

fn remove_url_vec(urls: &Vec<String>, url: &str) -> (kept: Vec<String>)
    ensures
        kept.deep_view() == spec_remove(urls.deep_view(), url@),
{
    let mut kept: Vec<String> = Vec::new();
    let mut i: usize = 0;
    proof {
        reveal(Seq::filter);
        assert(urls.deep_view().take(0) =~= Seq::<Seq<char>>::empty());
        assert(kept.deep_view() =~= spec_remove(urls.deep_view().take(0), url@));
    }
    while i < urls.len()
        invariant
            i <= urls.len(),
            kept.deep_view() == spec_remove(urls.deep_view().take(i as int), url@),
        decreases urls.len() - i,
    {
        let ghost prefix = urls.deep_view().take(i as int);
        let ghost item = urls.deep_view()[i as int];
        proof {
            reveal(Seq::filter);
            assert(item == urls@[i as int]@);
            assert(urls.deep_view().take(i + 1) =~= prefix.push(item));
            assert(prefix.push(item).drop_last() =~= prefix);
        }
        if !crate::strutil::str_eq(urls[i].as_str(), url) {
            kept.push(urls[i].clone());
            proof {
                assert(kept.deep_view() =~= spec_remove(prefix, url@).push(item));
            }
        }
        i += 1;
    }
    proof {
        assert(urls.deep_view().take(urls.len() as int) =~= urls.deep_view());
    }
    kept
}

fn insert_url_vec(urls: &mut Vec<String>, url: String)
    ensures
        final(urls).deep_view() == spec_insert(old(urls).deep_view(), url@),
{
    let ghost u = url@;
    if !contains_str(urls, url.as_str()) {
        urls.push(url);
        proof {
            assert(urls.deep_view() =~= spec_insert(old(urls).deep_view(), u));
        }
    } else {
        proof {
            assert(urls.deep_view() =~= spec_insert(old(urls).deep_view(), u));
        }
    }
}

fn clone_urls(urls: &Vec<String>) -> (r: Vec<String>)
    ensures
        r@ == urls@,
        r.deep_view() == urls.deep_view(),
{
    let mut r: Vec<String> = Vec::new();
    let mut i: usize = 0;
    while i < urls.len()
        invariant
            i <= urls.len(),
            r@ == urls@.take(i as int),
        decreases urls.len() - i,
    {
        r.push(urls[i].clone());
        proof {
            assert(r@ =~= urls@.take(i + 1));
        }
        i += 1;
    }
    proof {
        assert(urls@.take(urls.len() as int) =~= urls@);
        assert(r.deep_view() =~= urls.deep_view());
    }
    r
}

impl MessageServer {
    /// The session invariant, as seen by callers.
    pub open spec fn wf(&self) -> bool {
        session_wf(self@)
    }

    /// Build the orchestrator from the content of the persisted URL log (an
    /// unreadable log is handed in as the empty string). No window is open
    /// yet; the URLs of the previous session are kept only to seed new
    /// normal windows, and the startup hold is taken.
    pub fn new(log_content: &str, contexts: ContextManager) -> (server: MessageServer)
        ensures
            server.wf(),
            server@.app_count == 0,
            server@.opened_urls == Seq::<Seq<char>>::empty(),
            server@.previous_opened_urls == parse_log(log_content@),
            server@.holding == true,
            server@.contexts == contexts,
    {
        let opened: Vec<String> = Vec::new();
        let previous = load_urls(log_content);
        let server = MessageServer {
            app_count: 0,
            opened_urls: opened,
            previous_opened_urls: previous,
            holding: true,
            contexts,
        };
        proof {
            assert(server@.opened_urls =~= Seq::<Seq<char>>::empty());
        }
        server
    }

    /// How many windows are open.
    pub fn open_window_count(&self) -> (n: usize)
        ensures
            n == self@.app_count,
    {
        self.app_count
    }

    /// Whether the startup keep-alive hold is still taken.
    pub fn is_holding(&self) -> (h: bool)
        ensures
            h == self@.holding,
    {
        self.holding
    }

    /// The URLs currently registered as open, in insertion order.
    pub fn opened_urls(&self) -> (urls: Vec<String>)
        ensures
            urls.deep_view() == self@.opened_urls,
    {
        clone_urls(&self.opened_urls)
    }

    /// The URLs of the previous session, loaded once at startup.
    pub fn previous_opened_urls(&self) -> (urls: Vec<String>)
        ensures
            urls.deep_view() == self@.previous_opened_urls,
    {
        clone_urls(&self.previous_opened_urls)
    }

    /// Exactly what the persisted log reads for the current open-URL set.
    pub fn save_urls(&self) -> (content: String)
        ensures
            content@ == serialize_log(self@.opened_urls),
    {
        save_urls(&self.opened_urls)
    }

    /// Handle one message: mutate the session as `step` says and return the
    /// effects the host must perform, in order. Messages that report on an
    /// existing window (`RemoveApp`, `ChangeOpenedPage`) can only arrive
    /// while a window is open.
    pub fn update(&mut self, msg: Msg) -> (effects: Vec<Effect>)
        requires
            old(self).wf(),
            msg is RemoveApp || msg is ChangeOpenedPage ==> old(self)@.app_count > 0,
            msg is NewApp ==> old(self)@.app_count < usize::MAX,
        ensures
            final(self).wf(),
            final(self)@ == step(old(self)@, msg@).0,
            effect_views(effects@) == step(old(self)@, msg@).1,
    {
        let ghost pre = self@;
        let ghost mv = msg@;
        proof {
            lemma_step_preserves_wf(pre, mv);
        }
        match msg {
            Msg::ChangeOpenedPage(old_url, new_url) => {
                let kept = remove_url_vec(&self.opened_urls, old_url.as_str());
                self.opened_urls = kept;
                insert_url_vec(&mut self.opened_urls, new_url);
                let content = save_urls(&self.opened_urls);
                let mut effects: Vec<Effect> = Vec::new();
                effects.push(Effect::Persist(content));
                proof {
                    assert(self@ =~= step(pre, mv).0);
                    assert(effect_views(effects@) =~~= step(pre, mv).1);
                }
                effects
            },
            Msg::NewApp(url, privacy) => {
                self.app_count = self.app_count + 1;
                let context = self.contexts.select(privacy);
                let seed: Vec<String> = if privacy == Privacy::Normal {
                    clone_urls(&self.previous_opened_urls)
                } else {
                    Vec::new()
                };
                let mut effects: Vec<Effect> = Vec::new();
                if privacy == Privacy::Normal {
                    match &url {
                        Some(u) => {
                            insert_url_vec(&mut self.opened_urls, u.clone());
                            effects.push(Effect::Persist(save_urls(&self.opened_urls)));
                        },
                        None => {},
                    }
                }
                effects.push(Effect::CreateWindow { url, privacy, context, seed });
                proof {
                    if !(privacy is Normal) {
                        assert(seed.deep_view() =~= Seq::<Seq<char>>::empty());
                    }
                    assert(self@ =~= step(pre, mv).0);
                    assert(effect_views(effects@) =~~= step(pre, mv).1);
                }
                effects
            },
            Msg::ReleaseApp => {
                self.holding = false;
                let mut effects: Vec<Effect> = Vec::new();
                effects.push(Effect::Release);
                proof {
                    assert(self@ =~= step(pre, mv).0);
                    assert(effect_views(effects@) =~~= step(pre, mv).1);
                }
                effects
            },
            Msg::RemoveApp(url) => {
                let kept = remove_url_vec(&self.opened_urls, url.as_str());
                self.opened_urls = kept;
                let mut effects: Vec<Effect> = Vec::new();
                effects.push(Effect::Persist(save_urls(&self.opened_urls)));
                self.app_count = self.app_count - 1;
                if self.app_count == 0 {
                    self.opened_urls = Vec::new();
                    let empty_content = String::new();
                    proof {
                        assert(self@.opened_urls =~= Seq::<Seq<char>>::empty());
                        assert(empty_content@ =~= Seq::<char>::empty());
                    }
                    effects.push(Effect::Persist(empty_content));
                }
                proof {
                    assert(self@ =~= step(pre, mv).0);
                    assert(effect_views(effects@) =~~= step(pre, mv).1);
                }
                effects
            },
        }
    }
}

/// The startup batch for the launch URL list: one normal window per URL in
/// argument order — or a single blank normal window when the list is empty —
/// followed by exactly one release of the startup hold.
pub open spec fn spec_startup(urls: Seq<Seq<char>>) -> Seq<MsgView> {
    if urls.len() == 0 {
        seq![MsgView::NewApp(None, Privacy::Normal), MsgView::ReleaseApp]
    } else {
        urls.map_values(|u: Seq<char>| MsgView::NewApp(Some(u), Privacy::Normal)).push(
            MsgView::ReleaseApp,
        )
    }
}

/// The messages the orchestrator sends itself at startup.
pub fn startup_messages(urls: &Vec<String>) -> (msgs: Vec<Msg>)
    ensures
        msg_views(msgs@) == spec_startup(urls.deep_view()),
{
    let mut msgs: Vec<Msg> = Vec::new();
    if urls.len() == 0 {
        msgs.push(Msg::NewApp(None, Privacy::Normal));
        msgs.push(Msg::ReleaseApp);
        proof {
            assert(msg_views(msgs@) =~~= spec_startup(urls.deep_view()));
        }
    } else {
        let mut i: usize = 0;
        while i < urls.len()
            invariant
                i <= urls.len(),
                msgs@.len() == i,
                forall|j: int|
                    0 <= j < i ==> (#[trigger] msgs@[j])@ == MsgView::NewApp(
                        Some(urls.deep_view()[j]),
                        Privacy::Normal,
                    ),
            decreases urls.len() - i,
        {
            proof {
                assert(urls.deep_view()[i as int] == urls@[i as int]@);
            }
            msgs.push(Msg::NewApp(Some(urls[i].clone()), Privacy::Normal));
            i += 1;
        }
        msgs.push(Msg::ReleaseApp);
        proof {
            assert(msg_views(msgs@) =~~= spec_startup(urls.deep_view()));
        }
    }
    msgs
}

/// The state after a whole message sequence is handled, first message first.
pub open spec fn run(s: SessionView, msgs: Seq<MsgView>) -> SessionView
    decreases msgs.len(),
{
    if msgs.len() == 0 {
        s
    } else {
        run(step(s, msgs[0]).0, msgs.drop_first())
    }
}

/// How many of the messages request a new window.
pub open spec fn count_opens(msgs: Seq<MsgView>) -> int
    decreases msgs.len(),
{
    if msgs.len() == 0 {
        0
    } else {
        (if msgs[0] is NewApp {
            1int
        } else {
            0int
        }) + count_opens(msgs.drop_first())
    }
}

/// How many of the messages report a closed window.
pub open spec fn count_closes(msgs: Seq<MsgView>) -> int
    decreases msgs.len(),
{
    if msgs.len() == 0 {
        0
    } else {
        (if msgs[0] is RemoveApp {
            1int
        } else {
            0int
        }) + count_closes(msgs.drop_first())
    }
}

/// A message sequence a real session can deliver: a window only reports a
/// navigation or its closing while it is open.
pub open spec fn admissible(s: SessionView, msgs: Seq<MsgView>) -> bool
    decreases msgs.len(),
{
    msgs.len() == 0 || {
        &&& (msgs[0] is RemoveApp || msgs[0] is ChangeOpenedPage ==> s.app_count > 0)
        &&& admissible(step(s, msgs[0]).0, msgs.drop_first())
    }
}

/// Law: over any admissible message sequence, the open-window count ends as
/// the starting count plus the window requests minus the window closes — in
/// particular that difference never drops below zero.
pub proof fn lemma_window_count(s: SessionView, msgs: Seq<MsgView>)
    requires
        admissible(s, msgs),
    ensures
        run(s, msgs).app_count == s.app_count + count_opens(msgs) - count_closes(msgs),
        s.app_count + count_opens(msgs) - count_closes(msgs) >= 0,
    decreases msgs.len(),
{
    if msgs.len() > 0 {
        let s1 = step(s, msgs[0]).0;
        lemma_window_count(s1, msgs.drop_first());
        match msgs[0] {
            MsgView::NewApp(url, privacy) => {
                assert(s1.app_count == s.app_count + 1);
            },
            MsgView::RemoveApp(url) => {
                assert(s1.app_count == s.app_count - 1);
            },
            _ => {
                assert(s1.app_count == s.app_count);
            },
        }
    }
}

/// Law: closing the last open window empties the open-URL set and ends with
/// a persist of the empty log content, whatever was open before.
pub proof fn lemma_close_last_window_clears_log(s: SessionView, url: Seq<char>)
    requires
        s.app_count == 1,
    ensures
        step(s, MsgView::RemoveApp(url)).0.opened_urls == Seq::<Seq<char>>::empty(),
        step(s, MsgView::RemoveApp(url)).1.last() == EffectView::Persist(Seq::<char>::empty()),
        serialize_log(step(s, MsgView::RemoveApp(url)).0.opened_urls) == Seq::<char>::empty(),
{
    assert(serialize_log(Seq::<Seq<char>>::empty()) =~= Seq::<char>::empty());
}

/// Removing a URL that is not present changes nothing.
proof fn lemma_remove_absent(urls: Seq<Seq<char>>, url: Seq<char>)
    requires
        !urls.contains(url),
    ensures
        spec_remove(urls, url) == urls,
    decreases urls.len(),
{
    if urls.len() > 0 {
        assert(!urls.drop_last().contains(url)) by {
            if urls.drop_last().contains(url) {
                let i = choose|i: int|
                    0 <= i < urls.drop_last().len() && urls.drop_last()[i] == url;
                assert(urls[i] == url);
            }
        }
        lemma_remove_absent(urls.drop_last(), url);
        assert(urls.last() != url) by {
            if urls.last() == url {
                assert(urls[urls.len() - 1] == url);
            }
        }
        assert(spec_remove(urls, url) =~= urls);
    }
}

/// Law: reporting the same navigation twice is a no-op beyond the redundant
/// persist — the second report leaves the state exactly where the first one
/// put it.
pub proof fn lemma_url_change_idempotent(s: SessionView, old_url: Seq<char>, new_url: Seq<char>)
    requires
        session_wf(s),
    ensures
        step(step(s, MsgView::ChangeOpenedPage(old_url, new_url)).0,
            MsgView::ChangeOpenedPage(old_url, new_url)).0
            == step(s, MsgView::ChangeOpenedPage(old_url, new_url)).0,
{
    let removed = spec_remove(s.opened_urls, old_url);
    let once = spec_insert(removed, new_url);
    lemma_remove_props(s.opened_urls, old_url);
    if old_url == new_url {
        assert(!removed.contains(new_url));
        assert(once == removed.push(new_url));
        assert(once.drop_last() =~= removed);
        lemma_remove_absent(removed, old_url);
        assert(spec_remove(once, old_url) == removed);
        assert(spec_insert(spec_remove(once, old_url), new_url) == once);
    } else {
        assert(!once.contains(old_url)) by {
            if once.contains(old_url) {
                if removed.contains(new_url) {
                    assert(!removed.contains(old_url));
                } else {
                    let i = choose|i: int| 0 <= i < once.len() && once[i] == old_url;
                    if i < once.len() - 1 {
                        assert(removed[i] == old_url);
                    }
                }
            }
        }
        lemma_remove_absent(once, old_url);
        assert(once.contains(new_url)) by {
            lemma_insert_props(removed, new_url);
        }
        assert(spec_insert(spec_remove(once, old_url), new_url) == once);
    }
}

/// Law: opening a private window leaves the open-URL set untouched, persists
/// nothing, and seeds the window with no previous-session URLs.
pub proof fn lemma_private_window_unlogged(s: SessionView, url: Option<Seq<char>>)
    ensures
        step(s, MsgView::NewApp(url, Privacy::Private)).0.opened_urls == s.opened_urls,
        step(s, MsgView::NewApp(url, Privacy::Private)).1 == seq![
            (EffectView::CreateWindow {
                url: url,
                privacy: Privacy::Private,
                context: s.contexts.private_context(),
                seed: Seq::<Seq<char>>::empty(),
            }),
        ],
{
}

/// The fatal-startup report: the failure description behind a fixed prefix.
pub fn fatal_message(message: &str) -> (r: String)
    ensures
        r@ == "Fatal error: "@ + message@,
{
    let mut r = String::from_str("Fatal error: ");
    r.append(message);
    r
}

} // verus!
