//! The rust toolchain: finding the compiler on the host, and the registry row that carries it.
//!
//! Discovery is fail-closed. An explicit `$RUSTC` is the compiler or an error; it never falls
//! through to looking elsewhere. Without one, the well-known places are tried in order, and if
//! none holds a compiler that is an error too, never a guess.

use vstd::prelude::*;

use crate::error::{Error, ErrorView};
use crate::path::HostPath;
use crate::protocol::{after, asked, conversation, lemma_asked_kept, Protocol};
use crate::text::{debug_list, debug_text, text_opt, texts};

verus! {

/// The toolchain type a rust rule requires.
pub const RUST_TOOLCHAIN_TYPE: &'static str = "//rules/rust:toolchain_type";

/// The provider a resolved rust toolchain carries.
pub const RUST_TOOLCHAIN_INFO: &'static str = "ToolchainInfo";

/// The field of that provider that holds the compiler's absolute path.
pub const RUSTC_FIELD: &'static str = "rustc";

/// The configuration a rust build runs under.
pub const HOST_CONFIG: &'static str = "host";

/// A value of the build language, as far as the host looks into it.
#[derive(Debug, PartialEq, Eq)]
pub enum BzlValue {
    /// A string.
    Str(String),
    /// Anything else.
    Other,
}

/// [`BzlValue`] over characters.
#[verifier::ext_equal]
pub enum BzlValueView {
    Str(Seq<char>),
    Other,
}

impl View for BzlValue {
    type V = BzlValueView;

    open spec fn view(&self) -> BzlValueView {
        match self {
            BzlValue::Str(s) => BzlValueView::Str(s@),
            BzlValue::Other => BzlValueView::Other,
        }
    }
}

/// Names with their values, over characters.
pub open spec fn field_views(v: Seq<(String, BzlValue)>) -> Seq<(Seq<char>, BzlValueView)> {
    v.map_values(|p: (String, BzlValue)| (p.0@, p.1@))
}

/// The identity of a provider.
#[derive(Debug, PartialEq, Eq)]
pub struct ProviderId(pub String);

/// A provider with its fields.
#[derive(Debug, PartialEq, Eq)]
pub struct ProviderInstance {
    pub provider: ProviderId,
    pub fields: Vec<(String, BzlValue)>,
}

/// [`ProviderInstance`] over characters.
#[verifier::ext_equal]
pub struct ProviderInstanceView {
    pub provider: Seq<char>,
    pub fields: Seq<(Seq<char>, BzlValueView)>,
}

impl View for ProviderInstance {
    type V = ProviderInstanceView;

    open spec fn view(&self) -> ProviderInstanceView {
        ProviderInstanceView { provider: self.provider.0@, fields: field_views(self.fields@) }
    }
}

/// The identity of a toolchain type: its label.
#[derive(Debug, PartialEq, Eq)]
pub struct ToolchainType(pub String);

/// A registered toolchain: what it is for, the platforms it is limited to, and what it provides.
#[derive(Debug, PartialEq, Eq)]
pub struct RegisteredToolchain<I> {
    pub toolchain_type: ToolchainType,
    pub target_compatible_with: Vec<String>,
    pub exec_compatible_with: Vec<String>,
    pub info: I,
}

/// [`RegisteredToolchain`] over characters.
#[verifier::ext_equal]
pub struct RegisteredToolchainView<I> {
    pub toolchain_type: Seq<char>,
    pub target_compatible_with: Seq<Seq<char>>,
    pub exec_compatible_with: Seq<Seq<char>>,
    pub info: I,
}

impl<I> View for RegisteredToolchain<I> {
    type V = RegisteredToolchainView<I>;

    open spec fn view(&self) -> RegisteredToolchainView<I> {
        RegisteredToolchainView {
            toolchain_type: self.toolchain_type.0@,
            target_compatible_with: texts(self.target_compatible_with@),
            exec_compatible_with: texts(self.exec_compatible_with@),
            info: self.info,
        }
    }
}

/// A toolchain of type `toolchain_type` that provides `info` and fits every platform.
pub open spec fn unconstrained<I>(toolchain_type: Seq<char>, info: I) -> RegisteredToolchainView<I> {
    RegisteredToolchainView {
        toolchain_type,
        target_compatible_with: Seq::empty(),
        exec_compatible_with: Seq::empty(),
        info,
    }
}

/// What the rust toolchain provides: the compiler's path.
pub open spec fn rustc_info(rustc: Seq<char>) -> ProviderInstanceView {
    ProviderInstanceView {
        provider: RUST_TOOLCHAIN_INFO@,
        fields: seq![(RUSTC_FIELD@, BzlValueView::Str(rustc))],
    }
}

/// The registry row of type `toolchain_type` that provides `info` and fits every platform.
pub(crate) fn any_platform<I>(toolchain_type: String, info: I) -> (r: RegisteredToolchain<I>)
    ensures
        r@ == unconstrained(toolchain_type@, info),
{
    let r = RegisteredToolchain {
        toolchain_type: ToolchainType(toolchain_type),
        target_compatible_with: Vec::new(),
        exec_compatible_with: Vec::new(),
        info,
    };
    assert(r@ =~= unconstrained(toolchain_type@, info));
    r
}

/// The registry row for the compiler at `rustc`.
pub fn rust_toolchain(rustc: &HostPath) -> (r: RegisteredToolchain<ProviderInstance>)
    ensures
        r@ == unconstrained(RUST_TOOLCHAIN_TYPE@, r.info),
        r.info@ == rustc_info(rustc@),
        r.toolchain_type.0@ == "//rules/rust:toolchain_type"@,
        r.target_compatible_with.len() == 0,
        r.exec_compatible_with.len() == 0,
        r.info.provider.0@ == "ToolchainInfo"@,
        r.info.fields.len() == 1,
        r.info.fields[0].0@ == "rustc"@,
        r.info.fields[0].1 matches BzlValue::Str(path) && path@ == rustc@,
{
    let mut fields: Vec<(String, BzlValue)> = Vec::new();
    fields.push((RUSTC_FIELD.to_owned(), BzlValue::Str(rustc.as_str().to_owned())));
    let info = ProviderInstance { provider: ProviderId(RUST_TOOLCHAIN_INFO.to_owned()), fields };
    assert(info@ =~= rustc_info(rustc@));
    let r = any_platform(RUST_TOOLCHAIN_TYPE.to_owned(), info);
    assert(texts(r.target_compatible_with@).len() == 0);
    assert(texts(r.exec_compatible_with@).len() == 0);
    r
}

/// The places looked at when there is no override, best first.
pub open spec fn places(home: Option<Seq<char>>) -> Seq<Seq<char>> {
    let usual = seq!["/usr/local/bin/rustc"@, "/usr/bin/rustc"@];
    match home {
        Some(h) => seq![h + "/.cargo/bin/rustc"@] + usual,
        None => usual,
    }
}

/// The error of an override that is not there.
pub open spec fn bad_override(rustc: Seq<char>, why: Seq<char>) -> ErrorView {
    ErrorView::Invalid {
        what: "RUSTC override"@,
        detail: "$RUSTC='"@ + rustc + "' does not stat: "@ + why
            + " (an explicit override never falls through to probing)"@,
    }
}

/// The error of a host without a compiler, where `listed` names the places looked at.
pub open spec fn no_compiler(listed: Seq<char>) -> ErrorView {
    ErrorView::NotFound {
        what: "rustc"@,
        detail: "no rustc found: $RUSTC unset and none of "@ + listed
            + " stat (install rust or set $RUSTC)"@,
    }
}

/// The error of a host without a compiler, where `listed` names the places looked at.
pub fn no_rustc(listed: &str) -> (r: Error)
    ensures
        r@ == no_compiler(listed@),
        r matches Error::NotFound { what, detail } && what@ == "rustc"@ && detail@
            == "no rustc found: $RUSTC unset and none of "@ + listed@
            + " stat (install rust or set $RUSTC)"@,
{
    let detail = "no rustc found: $RUSTC unset and none of ".to_owned().concat(listed).concat(
        " stat (install rust or set $RUSTC)",
    );
    Error::NotFound { what: "rustc".to_owned(), detail }
}

/// What discovery asks of the host.
#[derive(Debug, PartialEq, Eq)]
pub enum HostQuery {
    /// The value of an environment variable.
    Env(&'static str),
    /// Whether there is something at a path.
    Stat(HostPath),
}

/// [`HostQuery`] over characters.
#[verifier::ext_equal]
pub enum HostQueryView {
    Env(Seq<char>),
    Stat(Seq<char>),
}

impl View for HostQuery {
    type V = HostQueryView;

    open spec fn view(&self) -> HostQueryView {
        match self {
            HostQuery::Env(name) => HostQueryView::Env(name@),
            HostQuery::Stat(path) => HostQueryView::Stat(path@),
        }
    }
}

/// What the host answers to discovery.
#[derive(Debug, PartialEq, Eq)]
pub enum HostAnswer {
    /// The variable's value, if it is set.
    Value(Option<String>),
    /// There is something there.
    Present,
    /// There is nothing there, for the reason given.
    Absent(String),
}

/// [`HostAnswer`] over characters.
#[verifier::ext_equal]
pub enum HostAnswerView {
    Value(Option<Seq<char>>),
    Present,
    Absent(Seq<char>),
}

impl View for HostAnswer {
    type V = HostAnswerView;

    open spec fn view(&self) -> HostAnswerView {
        match self {
            HostAnswer::Value(v) => HostAnswerView::Value(text_opt(*v)),
            HostAnswer::Present => HostAnswerView::Present,
            HostAnswer::Absent(why) => HostAnswerView::Absent(why@),
        }
    }
}

/// A discovery in progress, over characters.
#[verifier::ext_equal]
pub enum RustcSearchView {
    AskOverride,
    TryOverride { rustc: Seq<char> },
    AskHome,
    TryPlace { places: Seq<Seq<char>>, i: int },
    Finished { found: Result<Seq<char>, ErrorView> },
}

impl RustcSearchView {
    /// Whether the place looked at is one of the places.
    pub open spec fn wf(self) -> bool {
        match self {
            RustcSearchView::TryPlace { places, i } => 0 <= i < places.len(),
            _ => true,
        }
    }
}

impl Protocol for RustcSearchView {
    type Request = HostQueryView;

    type Reply = HostAnswerView;

    open spec fn pending(self) -> Option<HostQueryView> {
        match self {
            RustcSearchView::AskOverride => Some(HostQueryView::Env("RUSTC"@)),
            RustcSearchView::TryOverride { rustc } => Some(HostQueryView::Stat(rustc)),
            RustcSearchView::AskHome => Some(HostQueryView::Env("HOME"@)),
            RustcSearchView::TryPlace { places, i } => Some(HostQueryView::Stat(places[i])),
            RustcSearchView::Finished { .. } => None,
        }
    }

    open spec fn answers(request: HostQueryView, reply: HostAnswerView) -> bool {
        match request {
            HostQueryView::Env(_) => reply is Value,
            HostQueryView::Stat(_) => reply !is Value,
        }
    }

    open spec fn next(self, reply: HostAnswerView) -> RustcSearchView {
        match (self, reply) {
            (RustcSearchView::AskOverride, HostAnswerView::Value(Some(rustc))) => {
                RustcSearchView::TryOverride { rustc }
            },
            (RustcSearchView::AskOverride, HostAnswerView::Value(None)) => RustcSearchView::AskHome,
            (RustcSearchView::TryOverride { rustc }, HostAnswerView::Present) => {
                RustcSearchView::Finished { found: Ok(rustc) }
            },
            (RustcSearchView::TryOverride { rustc }, HostAnswerView::Absent(why)) => {
                RustcSearchView::Finished { found: Err(bad_override(rustc, why)) }
            },
            (RustcSearchView::AskHome, HostAnswerView::Value(home)) => {
                RustcSearchView::TryPlace { places: places(home), i: 0 }
            },
            (RustcSearchView::TryPlace { places, i }, HostAnswerView::Present) => {
                RustcSearchView::Finished { found: Ok(places[i]) }
            },
            (RustcSearchView::TryPlace { places, i }, HostAnswerView::Absent(_)) => {
                if i + 1 < places.len() {
                    RustcSearchView::TryPlace { places, i: i + 1 }
                } else {
                    RustcSearchView::Finished { found: Err(no_compiler(debug_text(places))) }
                }
            },
            _ => self,
        }
    }
}

#[derive(Debug)]
enum Step {
    AskOverride,
    TryOverride { rustc: String },
    AskHome,
    TryPlace { places: Vec<String>, i: usize },
    Finished { found: Result<HostPath, Error> },
}

/// A discovery in progress.
#[derive(Debug)]
pub struct RustcSearch {
    step: Step,
}

impl View for RustcSearch {
    type V = RustcSearchView;

    closed spec fn view(&self) -> RustcSearchView {
        match self.step {
            Step::AskOverride => RustcSearchView::AskOverride,
            Step::TryOverride { rustc } => RustcSearchView::TryOverride { rustc: rustc@ },
            Step::AskHome => RustcSearchView::AskHome,
            Step::TryPlace { places, i } => RustcSearchView::TryPlace {
                places: texts(places@),
                i: i as int,
            },
            Step::Finished { found } => RustcSearchView::Finished {
                found: match found {
                    Ok(path) => Ok(path@),
                    Err(e) => Err(e@),
                },
            },
        }
    }
}

/// Begins the discovery of the host's rust compiler.
pub fn discover_rustc() -> (r: RustcSearch)
    ensures
        r@ == RustcSearchView::AskOverride,
        r.wf(),
{
    RustcSearch { step: Step::AskOverride }
}

/// The places looked at when there is no override, best first.
fn candidates(home: Option<String>) -> (r: Vec<String>)
    ensures
        texts(r@) == places(text_opt(home)),
        r.len() > 0,
{
    let mut r: Vec<String> = Vec::new();
    if let Some(h) = &home {
        r.push(h.clone().concat("/.cargo/bin/rustc"));
    }
    r.push("/usr/local/bin/rustc".to_owned());
    r.push("/usr/bin/rustc".to_owned());
    assert(texts(r@) =~= places(text_opt(home)));
    r
}

impl RustcSearch {
    /// Whether the discovery is at a point it can be at.
    pub open spec fn wf(self) -> bool {
        self@.wf()
    }

    /// What the discovery asks next; nothing once it is over.
    pub fn request(&self) -> (r: Option<HostQuery>)
        requires
            self.wf(),
        ensures
            match r {
                Some(q) => self@.pending() == Some(q@),
                None => self@.pending() is None,
            },
    {
        match &self.step {
            Step::AskOverride => Some(HostQuery::Env("RUSTC")),
            Step::TryOverride { rustc } => Some(HostQuery::Stat(HostPath::new(rustc.clone()))),
            Step::AskHome => Some(HostQuery::Env("HOME")),
            Step::TryPlace { places, i } => {
                Some(HostQuery::Stat(HostPath::new(places[*i].clone())))
            },
            Step::Finished { .. } => None,
        }
    }

    /// Moves on with the host's answer.
    pub fn resume(self, reply: HostAnswer) -> (r: RustcSearch)
        requires
            self.wf(),
        ensures
            r@ == self@.next(reply@),
            r.wf(),
    {
        let step = match (self.step, reply) {
            (Step::AskOverride, HostAnswer::Value(Some(rustc))) => Step::TryOverride { rustc },
            (Step::AskOverride, HostAnswer::Value(None)) => Step::AskHome,
            (Step::TryOverride { rustc }, HostAnswer::Present) => {
                Step::Finished { found: Ok(HostPath::new(rustc)) }
            },
            (Step::TryOverride { rustc }, HostAnswer::Absent(why)) => {
                let detail = "$RUSTC='".to_owned().concat(rustc.as_str()).concat(
                    "' does not stat: ",
                ).concat(why.as_str()).concat(
                    " (an explicit override never falls through to probing)",
                );
                let e = Error::Invalid { what: "RUSTC override".to_owned(), detail };
                Step::Finished { found: Err(e) }
            },
            (Step::AskHome, HostAnswer::Value(home)) => {
                Step::TryPlace { places: candidates(home), i: 0 }
            },
            (Step::TryPlace { places, i }, HostAnswer::Present) => {
                Step::Finished { found: Ok(HostPath::new(places[i].clone())) }
            },
            (Step::TryPlace { places, i }, HostAnswer::Absent(_)) => {
                if i < places.len() - 1 {
                    Step::TryPlace { places, i: i + 1 }
                } else {
                    let listed = debug_list(&places);
                    Step::Finished { found: Err(no_rustc(listed.as_str())) }
                }
            },
            (step, _) => step,
        };
        RustcSearch { step }
    }

    /// The compiler found, or why there is none, once the discovery is over.
    pub fn outcome(self) -> (r: Option<Result<HostPath, Error>>)
        ensures
            match self@ {
                RustcSearchView::Finished { found } => match r {
                    Some(Ok(path)) => found == Ok::<Seq<char>, ErrorView>(path@),
                    Some(Err(e)) => found == Err::<Seq<char>, ErrorView>(e@),
                    None => false,
                },
                _ => r is None,
            },
    {
        match self.step {
            Step::Finished { found } => Some(found),
            _ => None,
        }
    }
}

/// What a host answers that has the variables `env`, and something at every path but those for
/// which `absent` gives a reason.
pub open spec fn truth(
    env: spec_fn(Seq<char>) -> Option<Seq<char>>,
    absent: spec_fn(Seq<char>) -> Option<Seq<char>>,
    query: HostQueryView,
) -> HostAnswerView {
    match query {
        HostQueryView::Env(name) => HostAnswerView::Value(env(name)),
        HostQueryView::Stat(path) => match absent(path) {
            None => HostAnswerView::Present,
            Some(why) => HostAnswerView::Absent(why),
        },
    }
}

/// Whether `rustc` is the compiler that such a host is to use. A set `$RUSTC` decides alone: it is
/// the compiler if it is there, and an error if it is not. Otherwise it is the first of the places
/// that is there, and an error if none is.
pub open spec fn right_rustc(
    env: spec_fn(Seq<char>) -> Option<Seq<char>>,
    absent: spec_fn(Seq<char>) -> Option<Seq<char>>,
    rustc: Result<Seq<char>, ErrorView>,
) -> bool {
    match env("RUSTC"@) {
        Some(path) => match absent(path) {
            None => rustc == Ok::<Seq<char>, ErrorView>(path),
            Some(why) => rustc == Err::<Seq<char>, ErrorView>(bad_override(path, why)),
        },
        None => {
            let all = places(env("HOME"@));
            match rustc {
                Ok(path) => exists|k: int|
                    {
                        &&& 0 <= k < all.len()
                        &&& path == #[trigger] all[k]
                        &&& absent(path) is None
                        &&& forall|j: int| 0 <= j < k ==> absent(#[trigger] all[j]) is Some
                    },
                Err(e) => e == no_compiler(debug_text(all)) && forall|j: int|
                    0 <= j < all.len() ==> absent(#[trigger] all[j]) is Some,
            }
        },
    }
}

proof fn lemma_rustc_so_far(
    env: spec_fn(Seq<char>) -> Option<Seq<char>>,
    absent: spec_fn(Seq<char>) -> Option<Seq<char>>,
    replies: Seq<HostAnswerView>,
)
    requires
        conversation(RustcSearchView::AskOverride, replies),
        forall|t: int|
            0 <= t < replies.len() ==> replies[t] == truth(
                env,
                absent,
                #[trigger] asked(RustcSearchView::AskOverride, replies, t),
            ),
    ensures
        match after(RustcSearchView::AskOverride, replies) {
            RustcSearchView::AskOverride => true,
            RustcSearchView::TryOverride { rustc } => env("RUSTC"@) == Some(rustc),
            RustcSearchView::AskHome => env("RUSTC"@) is None,
            RustcSearchView::TryPlace { places: all, i } => {
                &&& env("RUSTC"@) is None
                &&& all == places(env("HOME"@))
                &&& 0 <= i < all.len()
                &&& forall|j: int| 0 <= j < i ==> absent(#[trigger] all[j]) is Some
            },
            RustcSearchView::Finished { found } => right_rustc(env, absent, found),
        },
    decreases replies.len(),
{
    let start = RustcSearchView::AskOverride;
    if replies.len() > 0 {
        let past = replies.drop_last();
        lemma_asked_kept(start, replies);
        assert forall|t: int| 0 <= t < past.len() implies past[t] == truth(
            env,
            absent,
            #[trigger] asked(start, past, t),
        ) by {
            assert(asked(start, replies, t) == asked(start, past, t));
        }
        lemma_rustc_so_far(env, absent, past);
        let was = after(start, past);
        assert(replies.last() == truth(env, absent, was.pending()->0));
        if let RustcSearchView::TryPlace { places: all, i } = was {
            assert(all[i] == all[i]);
        }
    }
}

/// Discovery finds the compiler the host is to use, whatever the host holds.
pub proof fn law_finds_the_right_rustc(
    env: spec_fn(Seq<char>) -> Option<Seq<char>>,
    absent: spec_fn(Seq<char>) -> Option<Seq<char>>,
    replies: Seq<HostAnswerView>,
)
    requires
        conversation(RustcSearchView::AskOverride, replies),
        forall|t: int|
            0 <= t < replies.len() ==> replies[t] == truth(
                env,
                absent,
                #[trigger] asked(RustcSearchView::AskOverride, replies, t),
            ),
        after(RustcSearchView::AskOverride, replies) is Finished,
    ensures
        right_rustc(env, absent, after(RustcSearchView::AskOverride, replies)->found),
{
    lemma_rustc_so_far(env, absent, replies);
}

/// Discovery comes to an end after at most five questions.
pub proof fn law_discovery_ends(replies: Seq<HostAnswerView>)
    requires
        conversation(RustcSearchView::AskOverride, replies),
    ensures
        replies.len() <= 5,
        match after(RustcSearchView::AskOverride, replies) {
            RustcSearchView::AskOverride => replies.len() == 0,
            RustcSearchView::TryOverride { .. } => replies.len() == 1,
            RustcSearchView::AskHome => replies.len() == 1,
            RustcSearchView::TryPlace { places: all, i } => replies.len() == i + 2 && 0 <= i
                < all.len() <= 3,
            RustcSearchView::Finished { .. } => true,
        },
    decreases replies.len(),
{
    if replies.len() > 0 {
        law_discovery_ends(replies.drop_last());
    }
}

/// The row of a compiler is for the rust toolchain type, fits every platform, and provides one
/// field, `rustc`, which holds the compiler's path.
pub proof fn law_row_carries_the_compiler<I>(rustc: Seq<char>, info: I)
    ensures
        rustc_info(rustc).provider == "ToolchainInfo"@,
        rustc_info(rustc).fields == seq![("rustc"@, BzlValueView::Str(rustc))],
        unconstrained("//rules/rust:toolchain_type"@, info).toolchain_type
            == "//rules/rust:toolchain_type"@,
        unconstrained("//rules/rust:toolchain_type"@, info).target_compatible_with.len() == 0,
        unconstrained("//rules/rust:toolchain_type"@, info).exec_compatible_with.len() == 0,
        unconstrained("//rules/rust:toolchain_type"@, info).info == info,
{
}

/// Whether `found` follows from looking at `all`, one after the other, from question `first` on:
/// the first that is there is found, those before it are not there, and if none is there the error
/// lists them.
pub open spec fn first_present(
    replies: Seq<HostAnswerView>,
    first: int,
    all: Seq<Seq<char>>,
    found: Result<Seq<char>, ErrorView>,
) -> bool {
    let start = RustcSearchView::AskOverride;
    &&& replies.len() <= first + all.len()
    &&& forall|t: int|
        first <= t < replies.len() ==> #[trigger] asked(start, replies, t) == HostQueryView::Stat(
            all[t - first],
        )
    &&& forall|t: int| first <= t < replies.len() - 1 ==> (#[trigger] replies[t]) is Absent
    &&& match found {
        Ok(path) => replies.last() is Present && path == all[replies.len() - 1 - first],
        Err(e) => {
            &&& replies.len() == first + all.len()
            &&& replies.last() is Absent
            &&& e == (ErrorView::NotFound {
                what: "rustc"@,
                detail: "no rustc found: $RUSTC unset and none of "@ + debug_text(all)
                    + " stat (install rust or set $RUSTC)"@,
            })
        },
    }
}

spec fn looking(replies: Seq<HostAnswerView>) -> bool {
    let start = RustcSearchView::AskOverride;
    let now = after(start, replies);
    let n = replies.len() as int;
    &&& n > 0 ==> asked(start, replies, 0) == HostQueryView::Env("RUSTC"@) && replies[0] is Value
    &&& match now {
        RustcSearchView::AskOverride => n == 0,
        RustcSearchView::TryOverride { rustc } => n == 1 && replies[0] == HostAnswerView::Value(
            Some(rustc),
        ),
        RustcSearchView::AskHome => n == 1 && replies[0] == HostAnswerView::Value(None),
        RustcSearchView::TryPlace { places: all, i } => {
            &&& n == i + 2
            &&& 0 <= i < all.len()
            &&& replies[0] == HostAnswerView::Value(None)
            &&& asked(start, replies, 1) == HostQueryView::Env("HOME"@)
            &&& replies[1] matches HostAnswerView::Value(home)
            &&& all == places(home)
            &&& forall|t: int|
                2 <= t < n ==> #[trigger] asked(start, replies, t) == HostQueryView::Stat(all[t - 2])
            &&& forall|t: int| 2 <= t < n ==> (#[trigger] replies[t]) is Absent
        },
        RustcSearchView::Finished { found } => {
            &&& n > 1
            &&& match replies[0] {
                HostAnswerView::Value(Some(rustc)) => {
                    &&& n == 2
                    &&& asked(start, replies, 1) == HostQueryView::Stat(rustc)
                    &&& match replies[1] {
                        HostAnswerView::Present => found == Ok::<Seq<char>, ErrorView>(rustc),
                        HostAnswerView::Absent(why) => found == Err::<Seq<char>, ErrorView>(
                            bad_override(rustc, why),
                        ),
                        _ => false,
                    }
                },
                HostAnswerView::Value(None) => {
                    &&& n > 2
                    &&& asked(start, replies, 1) == HostQueryView::Env("HOME"@)
                    &&& replies[1] matches HostAnswerView::Value(home)
                    &&& first_present(replies, 2, places(home), found)
                },
                _ => false,
            }
        },
    }
}

proof fn lemma_looking(replies: Seq<HostAnswerView>)
    requires
        conversation(RustcSearchView::AskOverride, replies),
    ensures
        looking(replies),
    decreases replies.len(),
{
    let start = RustcSearchView::AskOverride;
    if replies.len() > 0 {
        let past = replies.drop_last();
        lemma_looking(past);
        lemma_asked_kept(start, replies);
        if past.len() > 0 {
            assert(replies[0] == past[0]);
            assert(asked(start, replies, 0) == asked(start, past, 0));
        }
        if past.len() > 1 {
            assert(replies[1] == past[1]);
            assert(asked(start, replies, 1) == asked(start, past, 1));
        }
        assert forall|t: int| 2 <= t < past.len() implies (#[trigger] asked(start, replies, t))
            == asked(start, past, t) && replies[t] == past[t] by {}
        assert forall|t: int| 2 <= t < past.len() implies (#[trigger] replies[t]) == past[t] by {
            assert(asked(start, replies, t) == asked(start, past, t));
        }
    }
}

/// A discovery goes by what it was answered. It first asks for `$RUSTC`. If that is set, it looks
/// at that path and nothing else, and the path is the compiler or the error quotes it with the
/// reason. If not, it asks for `$HOME` and looks at `.cargo/bin/rustc` there, if there is a home,
/// and at the two usual places after that, stopping at the first that is there.
pub proof fn law_discovery_goes_by_its_answers(
    replies: Seq<HostAnswerView>,
    found: Result<Seq<char>, ErrorView>,
)
    requires
        conversation(RustcSearchView::AskOverride, replies),
        after(RustcSearchView::AskOverride, replies) == (RustcSearchView::Finished { found }),
    ensures
        replies.len() >= 2,
        asked(RustcSearchView::AskOverride, replies, 0) == HostQueryView::Env("RUSTC"@),
        replies[0] is Value,
        replies[0] matches HostAnswerView::Value(Some(rustc)) ==> {
            &&& replies.len() == 2
            &&& asked(RustcSearchView::AskOverride, replies, 1) == HostQueryView::Stat(rustc)
            &&& match replies[1] {
                HostAnswerView::Present => found == Ok::<Seq<char>, ErrorView>(rustc),
                HostAnswerView::Absent(why) => found == Err::<Seq<char>, ErrorView>(
                    ErrorView::Invalid {
                        what: "RUSTC override"@,
                        detail: "$RUSTC='"@ + rustc + "' does not stat: "@ + why
                            + " (an explicit override never falls through to probing)"@,
                    },
                ),
                HostAnswerView::Value(_) => false,
            }
        },
        replies[0] == HostAnswerView::Value(None) ==> {
            &&& asked(RustcSearchView::AskOverride, replies, 1) == HostQueryView::Env("HOME"@)
            &&& match replies[1] {
                HostAnswerView::Value(Some(home)) => first_present(
                    replies,
                    2,
                    seq![
                        home + "/.cargo/bin/rustc"@,
                        "/usr/local/bin/rustc"@,
                        "/usr/bin/rustc"@,
                    ],
                    found,
                ),
                HostAnswerView::Value(None) => first_present(
                    replies,
                    2,
                    seq!["/usr/local/bin/rustc"@, "/usr/bin/rustc"@],
                    found,
                ),
                _ => false,
            }
        },
{
    lemma_looking(replies);
    if replies[0] == HostAnswerView::Value(None) {
        if let HostAnswerView::Value(Some(home)) = replies[1] {
            assert(places(Some(home)) =~= seq![
                home + "/.cargo/bin/rustc"@,
                "/usr/local/bin/rustc"@,
                "/usr/bin/rustc"@,
            ]);
        }
    }
}

/// A discovery is over exactly when it has a result, and as soon as something looked at is there.
pub proof fn law_discovery_is_over_only_with_a_result(replies: Seq<HostAnswerView>)
    requires
        conversation(RustcSearchView::AskOverride, replies),
    ensures
        after(RustcSearchView::AskOverride, replies).pending() is None <==> after(
            RustcSearchView::AskOverride,
            replies,
        ) is Finished,
        replies.len() > 0 && replies.last() is Present ==> after(
            RustcSearchView::AskOverride,
            replies,
        ) is Finished,
        replies.len() == 0 ==> after(RustcSearchView::AskOverride, replies).pending() == Some(
            HostQueryView::Env("RUSTC"@),
        ),
{
    lemma_looking(replies);
    if replies.len() > 0 {
        lemma_looking(replies.drop_last());
    }
}

/// Rows, providers, queries and answers are seen whole.
pub proof fn law_toolchain_values_are_seen_whole<I>(
    text: String,
    path: HostPath,
    name: &'static str,
    fields: Seq<(String, BzlValue)>,
    instance: ProviderInstance,
    row: RegisteredToolchain<I>,
)
    ensures
        BzlValue::Str(text)@ == BzlValueView::Str(text@),
        BzlValue::Other@ == BzlValueView::Other,
        field_views(fields).len() == fields.len(),
        forall|i: int|
            0 <= i < fields.len() ==> #[trigger] field_views(fields)[i] == (
                fields[i].0@,
                fields[i].1@,
            ),
        instance@.provider == instance.provider.0@,
        instance@.fields == field_views(instance.fields@),
        row@.toolchain_type == row.toolchain_type.0@,
        row@.target_compatible_with == texts(row.target_compatible_with@),
        row@.exec_compatible_with == texts(row.exec_compatible_with@),
        row@.info == row.info,
        HostQuery::Env(name)@ == HostQueryView::Env(name@),
        HostQuery::Stat(path)@ == HostQueryView::Stat(path@),
        HostAnswer::Value(Some(text))@ == HostAnswerView::Value(Some(text@)),
        HostAnswer::Value(None)@ == HostAnswerView::Value(None),
        HostAnswer::Present@ == HostAnswerView::Present,
        HostAnswer::Absent(text)@ == HostAnswerView::Absent(text@),
{
}

/// A value answers the question for a variable, and that something is there or not the question
/// about a path; an answer to another question, or after the end, changes nothing.
pub proof fn law_discovery_takes_fitting_answers(
    state: RustcSearchView,
    text: Seq<char>,
    reply: HostAnswerView,
)
    ensures
        RustcSearchView::answers(HostQueryView::Env(text), reply) <==> reply is Value,
        RustcSearchView::answers(HostQueryView::Stat(text), reply) <==> reply is Present
            || reply is Absent,
        state.pending() is None ==> state.next(reply) == state,
        state.pending() matches Some(q) ==> (RustcSearchView::answers(q, reply) || state.next(reply)
            == state),
{
}

} // verus!
