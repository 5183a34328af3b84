//! Finding the workspace root.
//!
//! A build is rooted at the nearest enclosing directory that holds a workspace marker. From a
//! start directory the search climbs the chain of parents to the filesystem root; the first
//! directory with any of the markers is the root, whichever marker it is. A chain without one
//! is a typed error: there is no falling back to the start directory.
//!
//! The search looks at nothing itself. [`RootSearch`] asks whether a directory holds a marker
//! and moves on with the answer; the climb itself is text arithmetic on the path.

use vstd::prelude::*;

use crate::error::{Error, ErrorView};
use crate::path::HostPath;
use crate::protocol::{
    after, asked, conversation, lemma_asked_last, lemma_prefix, Protocol,
};
use crate::text::{find_last, same_text};

verus! {

/// The primary workspace marker.
pub const WORKSPACE_MARKER: &'static str = "MODULE.bazel";

/// Every file name that marks a workspace root, in the order they are looked for.
pub const WORKSPACE_MARKERS: [&'static str; 3] = ["MODULE.bazel", "WORKSPACE.bazel", "WORKSPACE"];

/// `s` without one trailing slash, unless that is all there is.
pub open spec fn without_one_slash(s: Seq<char>) -> Seq<char> {
    if s.len() > 1 && s.last() == '/' {
        s.drop_last()
    } else {
        s
    }
}

/// The directory above `dir`: `/a/b` for `/a/b/c`, `/` for `/a`, and none for `/` or for a
/// path without a slash.
pub open spec fn dir_above(dir: Seq<char>) -> Option<Seq<char>> {
    let s = without_one_slash(dir);
    match s.index_of_last('/') {
        None => None,
        Some(i) => if i > 0 {
            Some(s.take(i))
        } else if s.len() == 1 {
            None
        } else {
            Some(seq!['/'])
        },
    }
}

/// The directory above is written shorter.
pub proof fn lemma_above_is_shorter(dir: Seq<char>)
    ensures
        dir_above(dir) is Some ==> dir_above(dir)->0.len() < dir.len(),
{
    without_one_slash(dir).index_of_last_ensures('/');
}

/// `dir` and the directories above it, nearest first.
pub open spec fn chain(dir: Seq<char>) -> Seq<Seq<char>>
    decreases dir.len(),
{
    match dir_above(dir) {
        Some(up) => {
            proof {
                lemma_above_is_shorter(dir);
            }
            seq![dir] + chain(up)
        },
        None => seq![dir],
    }
}

/// The error of a search from `start` that found no marker.
pub open spec fn no_root(start: Seq<char>) -> ErrorView {
    ErrorView::NotFound {
        what: "workspace root"@,
        detail: "no "@ + WORKSPACE_MARKER@ + " marker found walking up from '"@ + start
            + "' to the filesystem root (a razel build is only supported from within a workspace)"@,
    }
}

/// A search in progress, over characters: looking in `dir` for marker number `marker`.
#[verifier::ext_equal]
pub enum RootSearchView {
    Looking { start: Seq<char>, dir: Seq<char>, marker: int },
    Finished { root: Result<Seq<char>, ErrorView> },
}

/// The question whether `dir` holds a file called `marker`.
#[verifier::ext_equal]
pub struct ProbeView {
    pub dir: Seq<char>,
    pub marker: Seq<char>,
}

impl RootSearchView {
    /// A search that begins at `start`.
    pub open spec fn begin(start: Seq<char>) -> RootSearchView {
        RootSearchView::Looking { start, dir: start, marker: 0 }
    }

    /// Whether the marker looked for is one of the markers.
    pub open spec fn wf(self) -> bool {
        match self {
            RootSearchView::Looking { marker, .. } => 0 <= marker < WORKSPACE_MARKERS.len(),
            RootSearchView::Finished { .. } => true,
        }
    }
}

impl Protocol for RootSearchView {
    type Request = ProbeView;

    type Reply = bool;

    open spec fn pending(self) -> Option<ProbeView> {
        match self {
            RootSearchView::Looking { dir, marker, .. } => Some(
                ProbeView { dir, marker: WORKSPACE_MARKERS[marker]@ },
            ),
            RootSearchView::Finished { .. } => None,
        }
    }

    open spec fn answers(request: ProbeView, reply: bool) -> bool {
        true
    }

    open spec fn next(self, reply: bool) -> RootSearchView {
        match self {
            RootSearchView::Looking { start, dir, marker } => if reply {
                RootSearchView::Finished { root: Ok(dir) }
            } else if marker + 1 < WORKSPACE_MARKERS.len() {
                RootSearchView::Looking { start, dir, marker: marker + 1 }
            } else {
                match dir_above(dir) {
                    Some(up) => RootSearchView::Looking { start, dir: up, marker: 0 },
                    None => RootSearchView::Finished { root: Err(no_root(start)) },
                }
            },
            RootSearchView::Finished { .. } => self,
        }
    }
}

#[derive(Debug)]
enum Step {
    Looking { start: HostPath, dir: HostPath, marker: usize },
    Finished { root: Result<HostPath, Error> },
}

/// A search in progress.
#[derive(Debug)]
pub struct RootSearch {
    step: Step,
}

impl View for RootSearch {
    type V = RootSearchView;

    closed spec fn view(&self) -> RootSearchView {
        match self.step {
            Step::Looking { start, dir, marker } => RootSearchView::Looking {
                start: start@,
                dir: dir@,
                marker: marker as int,
            },
            Step::Finished { root } => RootSearchView::Finished {
                root: match root {
                    Ok(dir) => Ok(dir@),
                    Err(e) => Err(e@),
                },
            },
        }
    }
}

/// Whether `dir` holds a file called `marker`; asked of the host.
#[derive(Debug, PartialEq, Eq)]
pub struct Probe {
    pub dir: HostPath,
    pub marker: &'static str,
}

impl View for Probe {
    type V = ProbeView;

    open spec fn view(&self) -> ProbeView {
        ProbeView { dir: self.dir@, marker: self.marker@ }
    }
}

/// The directory above `dir`, written shorter than `dir` itself.
pub fn parent_dir(dir: &HostPath) -> (r: Option<HostPath>)
    ensures
        match r {
            Some(up) => dir_above(dir@) == Some(up@) && up@.len() < dir@.len(),
            None => dir_above(dir@) is None,
        },
{
    proof {
        lemma_above_is_shorter(dir@);
    }
    let whole = dir.as_str();
    let n = whole.unicode_len();
    let s = if n > 1 && whole.get_char(n - 1) == '/' {
        whole.substring_char(0, n - 1)
    } else {
        whole
    };
    assert(s@ =~= without_one_slash(dir@));
    match find_last(s, '/') {
        None => None,
        Some(i) => {
            if i > 0 {
                Some(HostPath::new(s.substring_char(0, i).to_owned()))
            } else {
                proof {
                    reveal_strlit("/");
                    assert("/"@ =~= seq!['/']);
                    s@.index_of_last_ensures('/');
                    assert(s@.len() == 1 ==> s@ =~= "/"@);
                }
                if same_text(s, "/") {
                    None
                } else {
                    Some(HostPath::new("/".to_owned()))
                }
            }
        },
    }
}

/// Begins the search for the workspace root that `start` lies in.
pub fn discover_workspace_root(start: &HostPath) -> (r: RootSearch)
    ensures
        r@ == RootSearchView::begin(start@),
        r.wf(),
{
    RootSearch { step: Step::Looking { start: start.clone(), dir: start.clone(), marker: 0 } }
}

impl RootSearch {
    /// Whether the search is at a point it can be at.
    pub open spec fn wf(self) -> bool {
        self@.wf()
    }

    /// What the search asks next; nothing once it is over.
    pub fn request(&self) -> (r: Option<Probe>)
        requires
            self.wf(),
        ensures
            match r {
                Some(q) => self@.pending() == Some(q@),
                None => self@.pending() is None,
            },
    {
        match &self.step {
            Step::Looking { dir, marker, .. } => {
                Some(Probe { dir: dir.clone(), marker: WORKSPACE_MARKERS[*marker] })
            },
            Step::Finished { .. } => None,
        }
    }

    /// Moves on, knowing whether the marker asked for is there.
    pub fn resume(self, present: bool) -> (r: RootSearch)
        requires
            self.wf(),
        ensures
            r@ == self@.next(present),
            r.wf(),
    {
        let step = match self.step {
            Step::Looking { start, dir, marker } => {
                if present {
                    Step::Finished { root: Ok(dir) }
                } else if marker + 1 < WORKSPACE_MARKERS.len() {
                    Step::Looking { start, dir, marker: marker + 1 }
                } else {
                    match parent_dir(&dir) {
                        Some(up) => Step::Looking { start, dir: up, marker: 0 },
                        None => {
                            let detail = "no ".to_owned().concat(WORKSPACE_MARKER).concat(
                                " marker found walking up from '",
                            ).concat(start.as_str()).concat(
                                "' to the filesystem root (a razel build is only supported from within a workspace)",
                            );
                            let e = Error::NotFound { what: "workspace root".to_owned(), detail };
                            Step::Finished { root: Err(e) }
                        },
                    }
                }
            },
            Step::Finished { root } => Step::Finished { root },
        };
        RootSearch { step }
    }

    /// The root found, or why there is none, once the search is over.
    pub fn outcome(self) -> (r: Option<Result<HostPath, Error>>)
        ensures
            match self@ {
                RootSearchView::Looking { .. } => r is None,
                RootSearchView::Finished { root } => match r {
                    Some(Ok(dir)) => root == Ok::<Seq<char>, ErrorView>(dir@),
                    Some(Err(e)) => root == Err::<Seq<char>, ErrorView>(e@),
                    None => false,
                },
            },
    {
        match self.step {
            Step::Looking { .. } => None,
            Step::Finished { root } => Some(root),
        }
    }
}

/// Whether `dir` holds a marker of any kind, going by `present`.
pub open spec fn marked(dir: Seq<char>, present: spec_fn(ProbeView) -> bool) -> bool {
    exists|m: int|
        0 <= m < WORKSPACE_MARKERS.len() && present(
            ProbeView { dir, marker: #[trigger] WORKSPACE_MARKERS[m]@ },
        )
}

/// The chain goes from each directory to the one above it, and ends where there is none.
pub proof fn lemma_chain(dir: Seq<char>, k: int)
    requires
        0 <= k < chain(dir).len(),
    ensures
        chain(dir)[0] == dir,
        k + 1 < chain(dir).len() ==> dir_above(chain(dir)[k]) == Some(chain(dir)[k + 1]),
        k + 1 == chain(dir).len() ==> dir_above(chain(dir)[k]) is None,
    decreases dir.len(),
{
    if let Some(up) = dir_above(dir) {
        lemma_above_is_shorter(dir);
        assert(chain(up).len() > 0);
        if k > 0 {
            lemma_chain(up, k - 1);
        } else {
            lemma_chain(up, 0);
        }
    }
}

proof fn lemma_chain_is_short(dir: Seq<char>)
    ensures
        chain(dir).len() <= if dir.len() > 0 {
            dir.len()
        } else {
            1
        },
    decreases dir.len(),
{
    if let Some(up) = dir_above(dir) {
        lemma_above_is_shorter(dir);
        without_one_slash(dir).index_of_last_ensures('/');
        assert(up.len() > 0);
        lemma_chain_is_short(up);
    }
}

/// Every climb ends. Each directory above is written shorter than the one below it; `/` and a path
/// without a slash have none above; and going from `dir` to the directory above again and again
/// arrives where there is none after at most as many directories as `dir` has characters.
pub proof fn law_climb_ends(dir: Seq<char>)
    ensures
        dir_above(dir) is Some ==> 0 < dir_above(dir)->0.len() < dir.len(),
        dir == seq!['/'] || !dir.contains('/') ==> dir_above(dir) is None,
        chain(dir).len() > 0,
        chain(dir)[0] == dir,
        forall|k: int|
            0 <= k < chain(dir).len() - 1 ==> dir_above(#[trigger] chain(dir)[k]) == Some(
                chain(dir)[k + 1],
            ),
        dir_above(chain(dir).last()) is None,
        dir.len() > 0 ==> chain(dir).len() <= dir.len(),
        dir.len() == 0 ==> chain(dir).len() == 1,
{
    let s = without_one_slash(dir);
    s.index_of_last_ensures('/');
    lemma_above_is_shorter(dir);
    lemma_chain_is_short(dir);
    if !dir.contains('/') {
        if s.contains('/') {
            let i = s.index_of_last('/')->0;
            assert(dir[i] == '/');
        }
    }
    lemma_chain(dir, 0);
    lemma_chain(dir, chain(dir).len() - 1);
    assert forall|k: int| 0 <= k < chain(dir).len() - 1 implies dir_above(#[trigger] chain(dir)[k])
        == Some(chain(dir)[k + 1]) by {
        lemma_chain(dir, k);
    }
}

/// Where a search stands after every one of its `n` questions was answered no.
spec fn position(start: Seq<char>, n: int) -> RootSearchView {
    let dirs = chain(start);
    if n < 3 * dirs.len() {
        RootSearchView::Looking { start, dir: dirs[n / 3], marker: n % 3 }
    } else {
        RootSearchView::Finished { root: Err(no_root(start)) }
    }
}

proof fn lemma_position(start: Seq<char>, replies: Seq<bool>)
    requires
        conversation(RootSearchView::begin(start), replies),
    ensures
        chain(start).len() > 0,
        ({
            let n = replies.len() as int;
            let now = after(RootSearchView::begin(start), replies);
            &&& n <= 3 * chain(start).len()
            &&& forall|t: int| 0 <= t < n - 1 ==> !#[trigger] replies[t]
            &&& if n > 0 && replies[n - 1] {
                now == (RootSearchView::Finished { root: Ok(chain(start)[(n - 1) / 3]) })
            } else {
                now == position(start, n)
            }
        }),
    decreases replies.len(),
{
    let begin = RootSearchView::begin(start);
    let dirs = chain(start);
    lemma_chain(start, 0);
    if replies.len() > 0 {
        let past = replies.drop_last();
        let n = replies.len() as int;
        lemma_position(start, past);
        assert(after(begin, past).pending() is Some);
        if n - 1 > 0 {
            assert(past[n - 2] == replies[n - 2]);
        }
        assert(after(begin, past) == position(start, n - 1));
        assert(n - 1 < 3 * dirs.len());
        assert forall|t: int| 0 <= t < n - 1 implies !#[trigger] replies[t] by {
            assert(past[t] == replies[t]);
        }
        lemma_chain(start, (n - 1) / 3);
        if (n - 1) % 3 == 2 {
            assert(n / 3 == (n - 1) / 3 + 1);
            assert(n % 3 == 0);
        } else {
            assert(n / 3 == (n - 1) / 3);
            assert(n % 3 == (n - 1) % 3 + 1);
        }
    }
}

/// The search finds the nearest root. If its questions are answered truthfully, it ends with the
/// first directory of the chain from `start` upwards that holds a marker of any kind, every
/// nearer one holding none; and it ends with the error exactly when none of the chain holds one.
pub proof fn law_nearest_root(
    start: Seq<char>,
    present: spec_fn(ProbeView) -> bool,
    replies: Seq<bool>,
)
    requires
        conversation(RootSearchView::begin(start), replies),
        forall|t: int|
            0 <= t < replies.len() ==> replies[t] == present(
                #[trigger] asked(RootSearchView::begin(start), replies, t),
            ),
        after(RootSearchView::begin(start), replies) is Finished,
    ensures
        match after(RootSearchView::begin(start), replies)->root {
            Ok(dir) => exists|k: int|
                {
                    &&& 0 <= k < chain(start).len()
                    &&& dir == #[trigger] chain(start)[k]
                    &&& marked(dir, present)
                    &&& forall|j: int| 0 <= j < k ==> !marked(#[trigger] chain(start)[j], present)
                },
            Err(e) => e == no_root(start) && forall|j: int|
                0 <= j < chain(start).len() ==> !marked(#[trigger] chain(start)[j], present),
        },
{
    let begin = RootSearchView::begin(start);
    let n = replies.len() as int;
    let dirs = chain(start);
    lemma_position(start, replies);
    assert(n > 0);
    assert forall|t: int| 0 <= t < n implies #[trigger] asked(begin, replies, t) == (ProbeView {
        dir: dirs[t / 3],
        marker: WORKSPACE_MARKERS[t % 3]@,
    }) by {
        lemma_prefix(begin, replies, t);
        lemma_position(start, replies.take(t));
        if t > 0 {
            assert(replies.take(t)[t - 1] == replies[t - 1]);
        }
        reveal(asked);
    }
    let hit = replies[n - 1];
    let k = (n - 1) / 3;
    assert forall|j: int| 0 <= j < dirs.len() && (!hit || j < k) implies !marked(
        #[trigger] dirs[j],
        present,
    ) by {
        if marked(dirs[j], present) {
            let m = choose|m: int|
                0 <= m < WORKSPACE_MARKERS.len() && present(
                    ProbeView { dir: dirs[j], marker: #[trigger] WORKSPACE_MARKERS[m]@ },
                );
            let t = 3 * j + m;
            assert(t / 3 == j && t % 3 == m);
            assert(asked(begin, replies, t) == (ProbeView {
                dir: dirs[j],
                marker: WORKSPACE_MARKERS[m]@,
            }));
            assert(replies[t]);
        }
    }
    if hit {
        assert(asked(begin, replies, n - 1) == (ProbeView {
            dir: dirs[k],
            marker: WORKSPACE_MARKERS[(n - 1) % 3]@,
        }));
        assert(marked(dirs[k], present));
    }
}

/// Every search comes to an end at the filesystem root at the latest: it asks for each marker at
/// most once in each directory of the chain, which are no more than `start` has characters.
pub proof fn law_search_ends(start: Seq<char>, replies: Seq<bool>)
    requires
        conversation(RootSearchView::begin(start), replies),
    ensures
        replies.len() <= 3 * chain(start).len(),
        start.len() > 0 ==> replies.len() <= 3 * start.len(),
        replies.len() == 3 * chain(start).len() ==> after(
            RootSearchView::begin(start),
            replies,
        ) is Finished,
{
    lemma_chain_is_short(start);
    lemma_position(start, replies);
}

/// Where the last slash of a text is.
proof fn lemma_last_slash(d: Seq<char>, g: Seq<char>)
    requires
        !g.contains('/'),
    ensures
        (d + "/"@ + g).index_of_last('/') == Some(d.len() as int),
        g.index_of_last('/') is None,
{
    reveal_strlit("/");
    let s = d + "/"@ + g;
    s.index_of_last_ensures('/');
    g.index_of_last_ensures('/');
    assert(s[d.len() as int] == '/');
    assert(s.contains('/'));
    let i = s.index_of_last('/')->0;
    if i > d.len() {
        assert(s[i] == g[i - d.len() - 1]);
        assert(g.contains('/'));
    } else if i < d.len() {
        assert(s[d.len() as int] != '/');
    }
}

/// The directory above is found by taking off the last segment, with the slash before it and one
/// slash behind it: above `d/g` is `d`, above `/g` is `/`, and above `/`, `//` and a path of one
/// segment there is nothing.
pub proof fn law_directory_above(d: Seq<char>, g: Seq<char>)
    requires
        !g.contains('/'),
    ensures
        d.len() > 0 && g.len() > 0 ==> dir_above(d + "/"@ + g) == Some(d),
        d.len() > 0 ==> dir_above(d + "/"@ + g + "/"@) == Some(d),
        g.len() > 0 ==> dir_above("/"@ + g) == Some("/"@),
        g.len() > 0 ==> dir_above("/"@ + g + "/"@) == Some("/"@),
        dir_above(g) is None,
        dir_above(g + "/"@) is None,
        dir_above("//"@) is None,
{
    reveal_strlit("/");
    reveal_strlit("//");
    assert("/"@ =~= seq!['/']);
    let e = Seq::<char>::empty();
    let s = d + "/"@ + g;
    lemma_last_slash(d, g);
    lemma_last_slash(e, g);
    lemma_last_slash(e, e);
    assert(e + "/"@ + g =~= "/"@ + g);
    assert(e + "/"@ + e =~= "/"@);
    if g.len() > 0 {
        assert(g[g.len() - 1] == g.last());
        assert(g.last() != '/');
        assert(s.last() == g.last());
        assert(("/"@ + g).last() == g.last());
    }
    assert((s + "/"@).drop_last() =~= s);
    assert(without_one_slash(s + "/"@) =~= s);
    assert(s.take(d.len() as int) =~= d);
    assert(("/"@ + g + "/"@).drop_last() =~= "/"@ + g);
    assert((g + "/"@).drop_last() =~= g);
    assert(g + "/"@ =~= "/"@ || g.len() > 0);
    assert("//"@.drop_last() =~= "/"@);
}

/// Whether `dir` holds one of the markers, going by `present`.
pub open spec fn holds_marker(dir: Seq<char>, present: spec_fn(ProbeView) -> bool) -> bool {
    ||| present(ProbeView { dir, marker: "MODULE.bazel"@ })
    ||| present(ProbeView { dir, marker: "WORKSPACE.bazel"@ })
    ||| present(ProbeView { dir, marker: "WORKSPACE"@ })
}

/// Whether `start` is written the plain way: beginning with a slash, ending in none unless it is
/// all there is, and without two slashes in a row.
pub open spec fn plain_absolute(start: Seq<char>) -> bool {
    &&& start.len() > 0
    &&& start[0] == '/'
    &&& start.len() > 1 ==> start.last() != '/'
    &&& forall|i: int|
        0 <= i < start.len() - 1 ==> !(#[trigger] start[i] == '/' && start[i + 1] == '/')
}

/// The beginnings of a plain absolute path that end right before one of its slashes, the path
/// itself, and the filesystem root: the chain, nearest first, holds these and nothing else.
proof fn lemma_chain_of_prefixes(start: Seq<char>)
    requires
        plain_absolute(start),
    ensures
        chain(start).contains("/"@),
        forall|i: int|
            0 < i < start.len() && #[trigger] start[i] == '/' ==> chain(start).contains(
                start.take(i),
            ),
        forall|k: int|
            0 <= k < chain(start).len() ==> {
                let dir = #[trigger] chain(start)[k];
                ||| dir == start
                ||| dir == "/"@
                ||| 0 < dir.len() < start.len() && start[dir.len() as int] == '/' && dir
                    == start.take(dir.len() as int)
            },
        forall|j: int, k: int|
            0 <= j < k < chain(start).len() ==> (#[trigger] chain(start)[k]).len() < (
            #[trigger] chain(start)[j]).len(),
    decreases start.len(),
{
    reveal_strlit("/");
    assert("/"@ =~= seq!['/']);
    let e = Seq::<char>::empty();
    if start.len() == 1 {
        assert(start =~= "/"@);
        assert(!e.contains('/'));
        law_directory_above(e, e);
        assert(e + "/"@ =~= "/"@);
        assert(chain(start)[0] == start);
    } else {
        start.index_of_last_ensures('/');
        assert(start.contains('/'));
        let i = start.index_of_last('/')->0;
        let d = start.take(i);
        let g = start.skip(i + 1);
        assert(start =~= d + "/"@ + g);
        assert(!g.contains('/')) by {
            if g.contains('/') {
                let k = choose|k: int| 0 <= k < g.len() && g[k] == '/';
                assert(start[i + 1 + k] == '/');
            }
        }
        assert(i < start.len() - 1) by {
            assert(start[start.len() - 1] == start.last());
        }
        law_directory_above(d, g);
        let up = if i > 0 {
            d
        } else {
            "/"@
        };
        if i == 0 {
            assert(start =~= "/"@ + g);
        }
        assert(dir_above(start) == Some(up));
        assert(plain_absolute(up)) by {
            if i > 0 {
                assert(up.last() == start[i - 1]);
                assert(start[i] == '/');
                assert(up[0] == start[0]);
                if up.len() > 1 && up.last() == '/' {
                    assert(start[i - 1] == '/' && start[i - 1 + 1] == '/');
                }
                assert forall|k: int| 0 <= k < up.len() - 1 implies !(#[trigger] up[k] == '/'
                    && up[k + 1] == '/') by {
                    assert(up[k] == start[k] && up[k + 1] == start[k + 1]);
                }
            }
        }
        lemma_above_is_shorter(start);
        lemma_chain_of_prefixes(up);
        let all = chain(start);
        let rest = chain(up);
        assert(all =~= seq![start] + rest);
        assert(forall|k: int| 0 <= k < rest.len() ==> all[k + 1] == #[trigger] rest[k]);
        let top = choose|k: int| 0 <= k < rest.len() && rest[k] == "/"@;
        assert(all[top + 1] == "/"@);
        assert forall|x: int| 0 < x < start.len() && #[trigger] start[x] == '/' implies all.contains(
            start.take(x),
        ) by {
            if x == i {
                lemma_chain(up, 0);
                assert(all[1] == start.take(x));
            } else {
                assert(x < i);
                assert(up[x] == start[x]);
                assert(up.take(x) =~= start.take(x));
                let k = choose|k: int| 0 <= k < rest.len() && rest[k] == up.take(x);
                assert(all[k + 1] == start.take(x));
            }
        }
        assert forall|k: int| 0 <= k < all.len() implies {
            let dir = #[trigger] all[k];
            ||| dir == start
            ||| dir == "/"@
            ||| 0 < dir.len() < start.len() && start[dir.len() as int] == '/' && dir == start.take(
                dir.len() as int,
            )
        } by {
            if k > 0 {
                let dir = rest[k - 1];
                assert(all[k] == dir);
                if dir != "/"@ {
                    if dir == up {
                        assert(dir =~= start.take(dir.len() as int));
                    } else {
                        assert(start.take(dir.len() as int) =~= up.take(dir.len() as int));
                        assert(start[dir.len() as int] == up[dir.len() as int]);
                    }
                }
            }
        }
        assert forall|j: int, k: int| 0 <= j < k < all.len() implies (#[trigger] all[k]).len() < (
        #[trigger] all[j]).len() by {
            assert(all[k] == rest[k - 1]);
            if j > 0 {
                assert(all[j] == rest[j - 1]);
            } else {
                lemma_chain(up, 0);
                if k - 1 > 0 {
                    assert(rest[k - 1].len() < rest[0].len());
                }
            }
        }
    }
}

/// The search looks in every directory on the way up. From a start written the plain way it finds
/// the longest of these that holds a marker: the start itself, its beginnings that end right
/// before a slash, and the filesystem root; and it fails, quoting the start, only if none does.
pub proof fn law_longest_marked_beginning_is_the_root(
    start: Seq<char>,
    present: spec_fn(ProbeView) -> bool,
    replies: Seq<bool>,
)
    requires
        plain_absolute(start),
        conversation(RootSearchView::begin(start), replies),
        forall|t: int|
            0 <= t < replies.len() ==> replies[t] == present(
                #[trigger] asked(RootSearchView::begin(start), replies, t),
            ),
        after(RootSearchView::begin(start), replies) is Finished,
    ensures
        match after(RootSearchView::begin(start), replies)->root {
            Ok(dir) => {
                &&& holds_marker(dir, present)
                &&& dir == start || dir == "/"@ || (0 < dir.len() < start.len() && start[dir.len() as int]
                    == '/' && dir == start.take(dir.len() as int))
                &&& dir == start || !holds_marker(start, present)
                &&& forall|i: int|
                    dir.len() < i < start.len() && #[trigger] start[i] == '/' ==> !holds_marker(
                        start.take(i),
                        present,
                    )
            },
            Err(e) => {
                &&& !holds_marker(start, present)
                &&& !holds_marker("/"@, present)
                &&& forall|i: int|
                    0 < i < start.len() && #[trigger] start[i] == '/' ==> !holds_marker(
                        start.take(i),
                        present,
                    )
                &&& e == (ErrorView::NotFound {
                    what: "workspace root"@,
                    detail: "no MODULE.bazel marker found walking up from '"@ + start
                        + "' to the filesystem root (a razel build is only supported from within a workspace)"@,
                })
            },
        },
{
    let begin = RootSearchView::begin(start);
    let dirs = chain(start);
    law_nearest_root(start, present, replies);
    lemma_chain_of_prefixes(start);
    lemma_chain(start, 0);
    assert forall|dir: Seq<char>| #[trigger] marked(dir, present) == holds_marker(dir, present) by {
        lemma_marked(dir, present);
    }
    match after(begin, replies)->root {
        Ok(dir) => {
            let k = choose|k: int|
                {
                    &&& 0 <= k < dirs.len()
                    &&& dir == #[trigger] dirs[k]
                    &&& marked(dir, present)
                    &&& forall|j: int| 0 <= j < k ==> !marked(#[trigger] dirs[j], present)
                };
            assert(marked(dir, present));
            if dir != start {
                assert(k > 0);
                assert(!marked(dirs[0], present));
            }
            assert forall|i: int| dir.len() < i < start.len() && #[trigger] start[i] == '/' implies !holds_marker(
                start.take(i),
                present,
            ) by {
                let j = choose|j: int| 0 <= j < dirs.len() && dirs[j] == start.take(i);
                if k < j {
                    assert(dirs[j].len() < dirs[k].len());
                }
                assert(j < k);
                assert(!marked(dirs[j], present));
            }
        },
        Err(e) => {
            assert(!marked(dirs[0], present));
            let top = choose|j: int| 0 <= j < dirs.len() && dirs[j] == "/"@;
            assert(!marked(dirs[top], present));
            assert forall|i: int| 0 < i < start.len() && #[trigger] start[i] == '/' implies !holds_marker(
                start.take(i),
                present,
            ) by {
                let j = choose|j: int| 0 <= j < dirs.len() && dirs[j] == start.take(i);
                assert(!marked(dirs[j], present));
            }
            reveal_strlit("no ");
            reveal_strlit("MODULE.bazel");
            reveal_strlit(" marker found walking up from '");
            reveal_strlit("no MODULE.bazel marker found walking up from '");
            assert("no "@ + "MODULE.bazel"@ + " marker found walking up from '"@
                =~= "no MODULE.bazel marker found walking up from '"@);
        },
    }
}

proof fn lemma_marked(dir: Seq<char>, present: spec_fn(ProbeView) -> bool)
    ensures
        marked(dir, present) == holds_marker(dir, present),
{
    assert(WORKSPACE_MARKERS[0] == "MODULE.bazel");
    assert(WORKSPACE_MARKERS[1] == "WORKSPACE.bazel");
    assert(WORKSPACE_MARKERS[2] == "WORKSPACE");
    if present(ProbeView { dir, marker: "MODULE.bazel"@ }) {
        assert(present(ProbeView { dir, marker: WORKSPACE_MARKERS[0]@ }));
    }
    if present(ProbeView { dir, marker: "WORKSPACE.bazel"@ }) {
        assert(present(ProbeView { dir, marker: WORKSPACE_MARKERS[1]@ }));
    }
    if present(ProbeView { dir, marker: "WORKSPACE"@ }) {
        assert(present(ProbeView { dir, marker: WORKSPACE_MARKERS[2]@ }));
    }
}

/// A search that begins asks for the first marker in the start directory. After a yes it is over
/// with the directory asked about; after a no it asks for the next marker there, and after the
/// last one for the first marker in the directory above, if there is one.
pub proof fn law_each_answer_moves_the_search_on(start: Seq<char>, replies: Seq<bool>)
    requires
        conversation(RootSearchView::begin(start), replies),
    ensures
        RootSearchView::begin(start).pending() == Some(
            ProbeView { dir: start, marker: "MODULE.bazel"@ },
        ),
        replies.len() > 0 ==> ({
            let now = after(RootSearchView::begin(start), replies);
            let last = asked(RootSearchView::begin(start), replies, replies.len() - 1);
            if replies.last() {
                now == (RootSearchView::Finished { root: Ok(last.dir) })
            } else if last.marker == "MODULE.bazel"@ {
                now.pending() == Some(ProbeView { dir: last.dir, marker: "WORKSPACE.bazel"@ })
            } else if last.marker == "WORKSPACE.bazel"@ {
                now.pending() == Some(ProbeView { dir: last.dir, marker: "WORKSPACE"@ })
            } else {
                match dir_above(last.dir) {
                    Some(up) => now.pending() == Some(
                        ProbeView { dir: up, marker: "MODULE.bazel"@ },
                    ),
                    None => now == (RootSearchView::Finished {
                        root: Err(
                            ErrorView::NotFound {
                                what: "workspace root"@,
                                detail: "no MODULE.bazel marker found walking up from '"@ + start
                                    + "' to the filesystem root (a razel build is only supported from within a workspace)"@,
                            },
                        ),
                    }),
                }
            }
        }),
{
    let begin = RootSearchView::begin(start);
    assert(WORKSPACE_MARKERS[0] == "MODULE.bazel");
    assert(WORKSPACE_MARKERS[1] == "WORKSPACE.bazel");
    assert(WORKSPACE_MARKERS[2] == "WORKSPACE");
    reveal_strlit("MODULE.bazel");
    reveal_strlit("WORKSPACE.bazel");
    reveal_strlit("WORKSPACE");
    assert("MODULE.bazel"@.len() == 12 && "WORKSPACE.bazel"@.len() == 15 && "WORKSPACE"@.len() == 9);
    reveal_strlit("no ");
    reveal_strlit(" marker found walking up from '");
    reveal_strlit("no MODULE.bazel marker found walking up from '");
    assert("no "@ + "MODULE.bazel"@ + " marker found walking up from '"@
        =~= "no MODULE.bazel marker found walking up from '"@);
    if replies.len() > 0 {
        let past = replies.drop_last();
        lemma_asked_last(begin, replies);
        lemma_position(start, past);
        if past.len() > 0 {
            assert(after(begin, past).pending() is Some);
        }
    }
}

/// Probes are seen whole.
pub proof fn law_probes_are_seen_whole(p: Probe)
    ensures
        p@.dir == p.dir@,
        p@.marker == p.marker@,
{
}

/// Any answer is one to the search, and one that comes after its end changes nothing.
pub proof fn law_search_takes_any_answer(state: RootSearchView, probe: ProbeView, reply: bool)
    ensures
        RootSearchView::answers(probe, reply),
        state is Finished ==> state.next(reply) == state && state.pending() is None,
{
}

} // verus!
