//! Download coordinator: resolves a suggested filename into a collision-free
//! destination, decides whether an overwrite must be confirmed, and turns the
//! user's choices into the commands the renderer and the download list must
//! receive, in order. The coordinator owns no session state; the host hands
//! it the directory listings and existence probes its decisions depend on.

use vstd::prelude::*;
use vstd::string::StrSliceExecFns;
use vstd::string::StringExecFns;
use crate::strutil::contains_str;
use crate::strutil::dec_digits;
use crate::strutil::lemma_dec_digits_len;
use crate::strutil::lemma_dec_digits_injective;
use crate::strutil::u64_to_string;

verus! {

/// Index of the last occurrence of `c` in `s`, or -1 when there is none.
pub open spec fn last_index_of(s: Seq<char>, c: char) -> int
    decreases s.len(),
{
    if s.len() == 0 {
        -1
    } else if s.last() == c {
        s.len() - 1
    } else {
        last_index_of(s.drop_last(), c)
    }
}

/// Index of the dot splitting stem from extension: the last dot of the name.
pub open spec fn last_dot(name: Seq<char>) -> int {
    last_index_of(name, '.')
}

/// Everything before the split dot; the whole name when there is no dot or
/// only a leading one (a leading dot marks a hidden file, not an extension).
pub open spec fn stem_of(name: Seq<char>) -> Seq<char> {
    if last_dot(name) >= 1 {
        name.take(last_dot(name))
    } else {
        name
    }
}

/// Everything after the split dot; empty when the name has no extension.
pub open spec fn ext_of(name: Seq<char>) -> Seq<char> {
    if last_dot(name) >= 1 {
        name.skip(last_dot(name) + 1)
    } else {
        Seq::<char>::empty()
    }
}

/// The counter-suffix candidates: the suggested name itself first, then
/// `stem_n.ext` for n = 1, 2, 3, ...
pub open spec fn candidate(name: Seq<char>, n: nat) -> Seq<char> {
    if n == 0 {
        name
    } else {
        stem_of(name) + seq!['_'] + dec_digits(n) + seq!['.'] + ext_of(name)
    }
}

/// `r` is the first collision-free candidate for `name` against the names in
/// `existing`: some candidate is free, every earlier one is taken, and `r`
/// is that candidate.
pub open spec fn is_first_free(existing: Seq<Seq<char>>, name: Seq<char>, r: Seq<char>) -> bool {
    exists|n: nat|
        {
            &&& r == #[trigger] candidate(name, n)
            &&& !existing.contains(candidate(name, n))
            &&& forall|m: nat| m < n ==> existing.contains(#[trigger] candidate(name, m))
        }
}

proof fn lemma_last_index_spec(s: Seq<char>, c: char)
    ensures
        -1 <= last_index_of(s, c) < s.len(),
        last_index_of(s, c) >= 0 ==> s[last_index_of(s, c)] == c,
        forall|k: int| last_index_of(s, c) < k < s.len() ==> s[k] != c,
    decreases s.len(),
{
    if s.len() > 0 && s.last() != c {
        lemma_last_index_spec(s.drop_last(), c);
        assert(forall|k: int| 0 <= k < s.len() - 1 ==> s[k] == s.drop_last()[k]);
    }
}

proof fn lemma_candidate_lens(name: Seq<char>, n: nat)
    ensures
        n == 0 ==> candidate(name, n).len() == name.len(),
        n >= 1 ==> candidate(name, n).len() == stem_of(name).len() + ext_of(name).len() + 2
            + dec_digits(n).len(),
        n >= 1 ==> candidate(name, n).len() > name.len(),
{
    lemma_last_index_spec(name, '.');
    lemma_dec_digits_len(n);
    if n >= 1 {
        if last_dot(name) >= 1 {
            assert(stem_of(name).len() + ext_of(name).len() == name.len() - 1);
        } else {
            assert(stem_of(name).len() + ext_of(name).len() == name.len());
        }
    }
}

/// Distinct counters give distinct candidate names.
proof fn lemma_candidate_injective(name: Seq<char>, n: nat, m: nat)
    requires
        candidate(name, n) == candidate(name, m),
    ensures
        n == m,
{
    lemma_candidate_lens(name, n);
    lemma_candidate_lens(name, m);
    if n == 0 && m == 0 {
    } else if n >= 1 && m >= 1 {
        let s = stem_of(name).len() as int;
        let ln = dec_digits(n).len() as int;
        let lm = dec_digits(m).len() as int;
        assert(ln == lm);
        assert(dec_digits(n) =~= candidate(name, n).subrange(s + 1, s + 1 + ln));
        assert(dec_digits(m) =~= candidate(name, m).subrange(s + 1, s + 1 + lm));
        lemma_dec_digits_injective(n, m);
    }
}

/// If candidates 0 .. k are all taken, the listing holds at least k names.
proof fn lemma_candidate_pigeonhole(existing: Seq<Seq<char>>, name: Seq<char>, k: nat)
    requires
        forall|j: nat| j < k ==> existing.contains(#[trigger] candidate(name, j)),
    ensures
        k <= existing.len(),
    decreases k,
{
    if k > 0 {
        let last = candidate(name, (k - 1) as nat);
        assert(existing.contains(last));
        let idx = choose|idx: int| 0 <= idx < existing.len() && existing[idx] == last;
        let reduced = existing.remove(idx);
        existing.remove_ensures(idx);
        assert forall|j: nat| j < (k - 1) as nat implies reduced.contains(
            #[trigger] candidate(name, j),
        ) by {
            let c = candidate(name, j);
            assert(existing.contains(c));
            let i = choose|i: int| 0 <= i < existing.len() && existing[i] == c;
            assert(c != last) by {
                if c == last {
                    lemma_candidate_injective(name, j, (k - 1) as nat);
                }
            }
            if i < idx {
                assert(reduced[i] == c);
            } else {
                assert(i > idx);
                assert(reduced[i - 1] == c);
            }
        }
        lemma_candidate_pigeonhole(reduced, name, (k - 1) as nat);
    }
}

/// Split a filename into stem and extension, as the candidate naming uses
/// them.
fn split_name(name: &str) -> (parts: (String, String))
    ensures
        parts.0@ == stem_of(name@),
        parts.1@ == ext_of(name@),
{
    let n = name.unicode_len();
    let mut j: usize = n;
    while j > 0 && name.get_char(j - 1) != '.'
        invariant
            j <= n,
            n == name@.len(),
            forall|k: int| j <= k < n ==> name@[k] != '.',
        decreases j,
    {
        j -= 1;
    }
    proof {
        lemma_last_index_spec(name@, '.');
        if j > 0 {
            assert(name@[j - 1] == '.');
            if last_dot(name@) > j - 1 {
                assert(name@[last_dot(name@)] != '.');
            }
            if last_dot(name@) < j - 1 {
                assert(name@[j - 1] != '.');
            }
            assert(last_dot(name@) == j - 1);
        } else {
            if last_dot(name@) >= 0 {
                assert(name@[last_dot(name@)] != '.');
            }
            assert(last_dot(name@) == -1);
        }
    }
    if j >= 2 {
        let stem = name.substring_char(0, j - 1).to_owned();
        let ext = name.substring_char(j, n).to_owned();
        proof {
            assert(stem@ =~= stem_of(name@));
            assert(ext@ =~= ext_of(name@));
        }
        (stem, ext)
    } else {
        let stem = name.to_owned();
        let ext = String::new();
        proof {
            assert(ext@ =~= ext_of(name@));
        }
        (stem, ext)
    }
}

fn build_candidate(stem: &str, counter: u64, ext: &str) -> (r: String)
    requires
        counter >= 1,
    ensures
        r@ == stem@ + seq!['_'] + dec_digits(counter as nat) + seq!['.'] + ext@,
{
    let mut r = stem.to_owned();
    r.append("_");
    let digits = u64_to_string(counter);
    r.append(digits.as_str());
    r.append(".");
    r.append(ext);
    proof {
        reveal_strlit("_");
        reveal_strlit(".");
        assert("_"@ =~= seq!['_']);
        assert("."@ =~= seq!['.']);
        assert(r@ =~= stem@ + seq!['_'] + dec_digits(counter as nat) + seq!['.'] + ext@);
    }
    r
}

/// The first candidate name for `name` that does not occur in `existing`:
/// `name` itself when free, else `stem_n.ext` for the smallest counter n
/// that is free.
pub fn find_unique_name(existing: &Vec<String>, name: &str) -> (r: String)
    requires
        existing@.len() < usize::MAX,
    ensures
        is_first_free(existing.deep_view(), name@, r@),
{
    if !contains_str(existing, name) {
        let r = name.to_owned();
        proof {
            assert(r@ == candidate(name@, 0));
            assert(is_first_free(existing.deep_view(), name@, r@));
        }
        return r;
    }
    let (stem, ext) = split_name(name);
    let mut counter: u64 = 1;
    proof {
        assert(forall|m: nat|
            m < 1 ==> existing.deep_view().contains(#[trigger] candidate(name@, m)));
    }
    loop
        invariant
            1 <= counter,
            counter <= existing@.len() + 1,
            existing@.len() < usize::MAX,
            stem@ == stem_of(name@),
            ext@ == ext_of(name@),
            forall|m: nat|
                m < counter as nat ==> existing.deep_view().contains(
                    #[trigger] candidate(name@, m),
                ),
        decreases existing@.len() + 1 - counter,
    {
        let cand = build_candidate(stem.as_str(), counter, ext.as_str());
        proof {
            assert(cand@ == candidate(name@, counter as nat));
        }
        if !contains_str(existing, cand.as_str()) {
            proof {
                assert(is_first_free(existing.deep_view(), name@, cand@));
            }
            return cand;
        }
        proof {
            assert(existing.deep_view().len() == existing@.len());
            assert forall|m: nat| m < counter as nat + 1 implies existing.deep_view().contains(
                #[trigger] candidate(name@, m),
            ) by {
                if m < counter as nat {
                } else {
                    assert(candidate(name@, m) == cand@);
                }
            }
            lemma_candidate_pigeonhole(
                existing.deep_view(),
                name@,
                counter as nat + 1,
            );
        }
        counter += 1;
    }
}

/// Commands the coordinator hands back for one download. The first kind is
/// addressed to the transfer itself, the others to the application and its
/// download list.
pub enum DownloadAction {
    /// Bind the transfer to this destination (a file:// URI). The renderer
    /// may complete the transfer synchronously on receiving it.
    DownloadDestination(String),
    /// Abort the transfer.
    DownloadCancel,
    /// Stage the file to be opened once the transfer completes.
    AddFileToOpen,
    /// Record the path that was resolved automatically for this transfer.
    DownloadOriginalDestination(String),
    /// Report that a destination was decided for this suggested filename.
    DecideDownloadDestination(String),
}

/// `DownloadAction` with its strings abstracted to character sequences.
#[verifier::ext_equal]
pub enum DownloadActionView {
    DownloadDestination(Seq<char>),
    DownloadCancel,
    AddFileToOpen,
    DownloadOriginalDestination(Seq<char>),
    DecideDownloadDestination(Seq<char>),
}

impl View for DownloadAction {
    type V = DownloadActionView;

    open spec fn view(&self) -> DownloadActionView {
        match self {
            DownloadAction::DownloadDestination(uri) => DownloadActionView::DownloadDestination(
                uri@,
            ),
            DownloadAction::DownloadCancel => DownloadActionView::DownloadCancel,
            DownloadAction::AddFileToOpen => DownloadActionView::AddFileToOpen,
            DownloadAction::DownloadOriginalDestination(path) => {
                DownloadActionView::DownloadOriginalDestination(path@)
            },
            DownloadAction::DecideDownloadDestination(name) => {
                DownloadActionView::DecideDownloadDestination(name@)
            },
        }
    }
}

pub open spec fn action_views(actions: Seq<DownloadAction>) -> Seq<DownloadActionView> {
    actions.map_values(|a: DownloadAction| a@)
}

/// The renderer addresses destinations as file:// URIs.
pub open spec fn file_uri(path: Seq<char>) -> Seq<char> {
    "file://"@ + path
}

/// Format a path as the file:// URI the renderer takes.
pub fn to_file_uri(path: &str) -> (r: String)
    ensures
        r@ == file_uri(path@),
{
    let mut r = String::from_str("file://");
    r.append(path);
    r
}

/// Commit a destination: the command binding the transfer to it.
pub fn set_download_destination(destination: &str) -> (action: DownloadAction)
    ensures
        action@ == DownloadActionView::DownloadDestination(file_uri(destination@)),
{
    DownloadAction::DownloadDestination(to_file_uri(destination))
}

/// Resolve the overwrite question: commit the destination on yes, cancel the
/// download on no.
pub fn overwrite_download(destination: &str, overwrite: bool) -> (action: DownloadAction)
    ensures
        overwrite ==> action@ == DownloadActionView::DownloadDestination(
            file_uri(destination@),
        ),
        !overwrite ==> action@ == DownloadActionView::DownloadCancel,
{
    if overwrite {
        set_download_destination(destination)
    } else {
        DownloadAction::DownloadCancel
    }
}

/// A directory joined with a filename, inserting the separator only where
/// the directory does not already end in one.
pub open spec fn join_path(dir: Seq<char>, name: Seq<char>) -> Seq<char> {
    if dir.len() > 0 && dir.last() == '/' {
        dir + name
    } else {
        dir + seq!['/'] + name
    }
}

/// The path whose existence decides whether confirmation is needed: a
/// directory choice gets the suggested filename appended, a file choice
/// stands as it is.
pub fn resolve_confirm_path(destination: &str, destination_is_dir: bool, suggested: &str) -> (r:
    String)
    ensures
        destination_is_dir ==> r@ == join_path(destination@, suggested@),
        !destination_is_dir ==> r@ == destination@,
{
    if destination_is_dir {
        let n = destination.unicode_len();
        let mut r = destination.to_owned();
        if n == 0 || destination.get_char(n - 1) != '/' {
            r.append("/");
            proof {
                reveal_strlit("/");
                assert("/"@ =~= seq!['/']);
            }
        }
        r.append(suggested);
        proof {
            assert(r@ =~= join_path(destination@, suggested@));
        }
        r
    } else {
        destination.to_owned()
    }
}

/// The question posed before a file is overwritten.
pub open spec fn overwrite_question(path: Seq<char>) -> Seq<char> {
    "Do you want to overwrite "@ + path + "?"@
}

/// What the confirmation check decides.
pub enum ConfirmOutcome {
    /// Pose this yes/no question about the resolved path before committing.
    AskOverwrite { destination: String, message: String },
    /// No conflict: emit this command now.
    Commit(DownloadAction),
}

/// Decide whether committing `resolved` needs the user's confirmation.
/// `resolved_exists` reports whether something is already on disk at that
/// path, and `current_destination` is the destination URI the renderer
/// already holds for this download, if any. A path that is the download's
/// own current destination is never asked about, even when a file exists
/// there: the download itself is what put it there.
pub fn ask_download_confirm_if_needed(
    resolved: &str,
    resolved_exists: bool,
    current_destination: &Option<String>,
) -> (outcome: ConfirmOutcome)
    ensures
        ({
            let conflict = resolved_exists && !(current_destination is Some
                && current_destination->0@ == file_uri(resolved@));
            &&& conflict ==> (outcome matches ConfirmOutcome::AskOverwrite {
                destination,
                message,
            } && destination@ == resolved@ && message@ == overwrite_question(resolved@))
            &&& !conflict ==> (outcome matches ConfirmOutcome::Commit(action) && action@
                == DownloadActionView::DownloadDestination(file_uri(resolved@)))
        }),
{
    let uri = to_file_uri(resolved);
    let already_ours = match current_destination {
        Some(current) => crate::strutil::str_eq(current.as_str(), uri.as_str()),
        None => false,
    };
    if resolved_exists && !already_ours {
        let mut message = String::from_str("Do you want to overwrite ");
        message.append(resolved);
        message.append("?");
        ConfirmOutcome::AskOverwrite { destination: resolved.to_owned(), message }
    } else {
        ConfirmOutcome::Commit(DownloadAction::DownloadDestination(uri))
    }
}

/// The filename part of a suggested name that is actually a path: what
/// follows the last slash, or the whole string when there is no slash or
/// nothing follows it.
pub open spec fn base_name(s: Seq<char>) -> Seq<char> {
    let i = last_index_of(s, '/');
    if 0 <= i < s.len() - 1 {
        s.skip(i + 1)
    } else {
        s
    }
}

fn base_name_exec(s: &str) -> (r: String)
    ensures
        r@ == base_name(s@),
{
    let n = s.unicode_len();
    let mut j: usize = n;
    while j > 0 && s.get_char(j - 1) != '/'
        invariant
            j <= n,
            n == s@.len(),
            forall|k: int| j <= k < n ==> s@[k] != '/',
        decreases j,
    {
        j -= 1;
    }
    proof {
        lemma_last_index_spec(s@, '/');
        if j > 0 {
            assert(s@[j - 1] == '/');
            if last_index_of(s@, '/') > j - 1 {
                assert(s@[last_index_of(s@, '/')] != '/');
            }
            if last_index_of(s@, '/') < j - 1 {
                assert(s@[j - 1] != '/');
            }
            assert(last_index_of(s@, '/') == j - 1);
        } else {
            if last_index_of(s@, '/') >= 0 {
                assert(s@[last_index_of(s@, '/')] != '/');
            }
            assert(last_index_of(s@, '/') == -1);
        }
    }
    if j > 0 && j < n {
        let r = s.substring_char(j, n).to_owned();
        proof {
            assert(r@ =~= base_name(s@));
        }
        r
    } else {
        s.to_owned()
    }
}

/// Resolve a fresh destination in the download directory `dir` (given with
/// its trailing separator) for `suggested`: `dir` followed by the first
/// collision-free candidate name. `existing` lists the names already present
/// in `dir`.
pub fn find_download_destination(existing: &Vec<String>, dir: &str, suggested: &str) -> (r: String)
    requires
        existing@.len() < usize::MAX,
    ensures
        r@.len() >= dir@.len(),
        r@.take(dir@.len() as int) == dir@,
        is_first_free(existing.deep_view(), suggested@, r@.skip(dir@.len() as int)),
{
    let name = find_unique_name(existing, suggested);
    let mut r = dir.to_owned();
    r.append(name.as_str());
    proof {
        assert(r@.take(dir@.len() as int) =~= dir@);
        assert(r@.skip(dir@.len() as int) =~= name@);
    }
    r
}

/// What the decide-destination handler reports back.
pub enum DecideOutcome {
    /// The transfer already had a destination, so it was started internally:
    /// the user is not asked, nothing is handled here.
    NotHandled,
    /// A destination was resolved: emit these commands, in order.
    Handled { destination: String, actions: Vec<DownloadAction> },
}

/// The renderer reports a new transfer and asks where to write it. A
/// transfer that already carries a destination is left alone. Otherwise the
/// filename part of `suggested` is resolved to the first free candidate in
/// the download directory `dir` (whose names `existing` lists), and the
/// commands binding that destination are returned in order.
pub fn handle_decide_destination(
    current_destination: &Option<String>,
    suggested: &str,
    dir: &str,
    existing: &Vec<String>,
) -> (outcome: DecideOutcome)
    requires
        existing@.len() < usize::MAX,
    ensures
        current_destination is Some ==> outcome is NotHandled,
        current_destination is None ==> ({
            let base = base_name(suggested@);
            outcome matches DecideOutcome::Handled { destination, actions } && {
                &&& destination@.len() >= dir@.len()
                &&& destination@.take(dir@.len() as int) == dir@
                &&& is_first_free(existing.deep_view(), base, destination@.skip(dir@.len() as int))
                &&& action_views(actions@) == seq![
                    DownloadActionView::DownloadDestination(file_uri(destination@)),
                    DownloadActionView::DecideDownloadDestination(base),
                    DownloadActionView::DownloadOriginalDestination(destination@),
                ]
            }
        }),
{
    match current_destination {
        Some(_) => DecideOutcome::NotHandled,
        None => {
            let base = base_name_exec(suggested);
            let destination = find_download_destination(existing, dir, base.as_str());
            let mut actions: Vec<DownloadAction> = Vec::new();
            actions.push(DownloadAction::DownloadDestination(to_file_uri(destination.as_str())));
            actions.push(DownloadAction::DecideDownloadDestination(base));
            actions.push(DownloadAction::DownloadOriginalDestination(destination.clone()));
            proof {
                assert(action_views(actions@) =~~= seq![
                    DownloadActionView::DownloadDestination(file_uri(destination@)),
                    DownloadActionView::DecideDownloadDestination(base_name(suggested@)),
                    DownloadActionView::DownloadOriginalDestination(destination@),
                ]);
            }
            DecideOutcome::Handled { destination, actions }
        },
    }
}

/// Resolve a fresh, non-interactive destination in the application's own
/// temporary download directory (given with its trailing separator), as a
/// file:// URI. It reuses the same counter-suffix candidates, so the two
/// resolution paths never collide inside one directory.
pub fn find_destination(existing: &Vec<String>, downloads_dir: &str, suggested: &str) -> (r:
    String)
    requires
        existing@.len() < usize::MAX,
    ensures
        r@.len() >= file_uri(downloads_dir@).len(),
        r@.take(file_uri(downloads_dir@).len() as int) == file_uri(downloads_dir@),
        is_first_free(
            existing.deep_view(),
            suggested@,
            r@.skip(file_uri(downloads_dir@).len() as int),
        ),
{
    let name = find_unique_name(existing, suggested);
    let mut r = to_file_uri(downloads_dir);
    r.append(name.as_str());
    proof {
        assert(r@.take(file_uri(downloads_dir@).len() as int) =~= file_uri(downloads_dir@));
        assert(r@.skip(file_uri(downloads_dir@).len() as int) =~= name@);
    }
    r
}

/// What the destination prompt returned.
pub enum DialogChoice {
    /// The user picked a path, or cancelled the picker (`None`).
    Answer(Option<String>),
    /// The user invoked a named shortcut instead of picking a path.
    Shortcut(String),
}

/// What to do with the prompt's outcome.
pub enum DestinationDecision {
    /// An explicit path: run the confirmation flow on it before committing.
    Confirm(String),
    /// Emit these commands now, in order.
    Actions(Vec<DownloadAction>),
}

/// Dispatch the destination prompt's outcome. An explicit path goes to the
/// confirmation flow. The reserved "download" shortcut resolves into the
/// temporary download directory (`existing` lists its names) and stages the
/// file for opening; staging comes before the commit because the renderer
/// may finish the transfer synchronously on receiving the destination. A
/// cancelled prompt cancels the download; any other shortcut does nothing.
pub fn download_destination_chosen(
    choice: DialogChoice,
    suggested: &str,
    downloads_dir: &str,
    existing: &Vec<String>,
) -> (decision: DestinationDecision)
    requires
        existing@.len() < usize::MAX,
    ensures
        choice matches DialogChoice::Answer(Some(d)) ==> (decision
            matches DestinationDecision::Confirm(c) && c@ == d@),
        choice matches DialogChoice::Answer(None) ==> (decision
            matches DestinationDecision::Actions(a) && action_views(a@) == seq![
            DownloadActionView::DownloadCancel,
        ]),
        (choice matches DialogChoice::Shortcut(s) && s@ == "download"@) ==> (decision
            matches DestinationDecision::Actions(a) && {
            &&& a@.len() == 2
            &&& a@[0]@ == DownloadActionView::AddFileToOpen
            &&& a@[1]@ matches DownloadActionView::DownloadDestination(u) && {
                &&& u.len() >= file_uri(downloads_dir@).len()
                &&& u.take(file_uri(downloads_dir@).len() as int) == file_uri(downloads_dir@)
                &&& is_first_free(
                    existing.deep_view(),
                    suggested@,
                    u.skip(file_uri(downloads_dir@).len() as int),
                )
            }
        }),
        (choice matches DialogChoice::Shortcut(s) && s@ != "download"@) ==> (decision
            matches DestinationDecision::Actions(a) && a@.len() == 0),
{
    match choice {
        DialogChoice::Answer(Some(destination)) => DestinationDecision::Confirm(destination),
        DialogChoice::Answer(None) => {
            let mut actions: Vec<DownloadAction> = Vec::new();
            actions.push(DownloadAction::DownloadCancel);
            proof {
                assert(action_views(actions@) =~~= seq![DownloadActionView::DownloadCancel]);
            }
            DestinationDecision::Actions(actions)
        },
        DialogChoice::Shortcut(shortcut) => {
            let mut actions: Vec<DownloadAction> = Vec::new();
            if crate::strutil::str_eq(shortcut.as_str(), "download") {
                let destination = find_destination(existing, downloads_dir, suggested);
                actions.push(DownloadAction::AddFileToOpen);
                actions.push(DownloadAction::DownloadDestination(destination));
            }
            DestinationDecision::Actions(actions)
        },
    }
}

/// Lifecycle of one download, as the coordinator drives it.
pub enum DownloadState {
    AwaitingDestination,
    AwaitingConfirmation,
    Confirmed,
    Cancelled,
}

/// The transitions the protocol allows: a download awaiting its destination
/// may move to any other state, one awaiting confirmation only to a terminal
/// state, and the terminal states end its lifecycle.
pub open spec fn download_transition_ok(from: DownloadState, to: DownloadState) -> bool {
    ||| from is AwaitingDestination && !(to is AwaitingDestination)
    ||| from is AwaitingConfirmation && (to is Confirmed || to is Cancelled)
}

/// The state a confirmation outcome leaves the download in.
pub open spec fn confirm_outcome_state(outcome: ConfirmOutcome) -> DownloadState {
    match outcome {
        ConfirmOutcome::AskOverwrite { .. } => DownloadState::AwaitingConfirmation,
        ConfirmOutcome::Commit(_) => DownloadState::Confirmed,
    }
}

/// The state the overwrite answer leaves the download in.
pub open spec fn overwrite_outcome_state(overwrite: bool) -> DownloadState {
    if overwrite {
        DownloadState::Confirmed
    } else {
        DownloadState::Cancelled
    }
}

/// The confirmation check only takes transitions the lifecycle allows out of
/// `AwaitingDestination`.
pub proof fn lemma_confirm_respects_lifecycle(outcome: ConfirmOutcome)
    ensures
        download_transition_ok(DownloadState::AwaitingDestination, confirm_outcome_state(outcome)),
{
}

/// The overwrite answer only takes transitions the lifecycle allows out of
/// `AwaitingConfirmation`.
pub proof fn lemma_overwrite_respects_lifecycle(overwrite: bool)
    ensures
        download_transition_ok(
            DownloadState::AwaitingConfirmation,
            overwrite_outcome_state(overwrite),
        ),
{
}

} // verus!
