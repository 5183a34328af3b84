//! Labels, target patterns and the keys they name.

use vstd::prelude::*;

use crate::error::{Error, ErrorView};
use crate::text::{
    after_prefix, contains_run, cut, has_run, law_runs, lemma_cut, split_once, strip_prefix, text_opt,
};

verus! {

/// The package and the name that `//package:name` is made of; the name is what follows the first
/// colon.
pub open spec fn label_parts(label: Seq<char>) -> Option<(Seq<char>, Seq<char>)> {
    match after_prefix(label, "//"@) {
        Some(rest) => cut(rest, ':'),
        None => None,
    }
}

/// How `name` in `package` is written as a label.
pub open spec fn label_text(package: Seq<char>, name: Seq<char>) -> Seq<char> {
    "//"@ + package + ":"@ + name
}

/// Writes `name` in `package` as a label.
pub(crate) fn write_label(package: &str, name: &str) -> (r: String)
    ensures
        r@ == label_text(package@, name@),
{
    "//".to_owned().concat(package).concat(":").concat(name)
}

/// A label has parts exactly when it is written from them, the package holding no colon.
pub proof fn lemma_label_parts(label: Seq<char>, package: Seq<char>, name: Seq<char>)
    ensures
        label_parts(label) == Some((package, name)) <==> label == label_text(package, name)
            && !package.contains(':'),
{
    reveal_strlit("//");
    reveal_strlit(":");
    let prefix = "//"@;
    if prefix.is_prefix_of(label) {
        let rest = label.skip(2);
        assert(label =~= prefix + rest);
        lemma_cut(rest, ':', package, name);
        let body = package.push(':') + name;
        assert(label_text(package, name) =~= prefix + body);
        if label == label_text(package, name) {
            assert(rest =~= body);
        }
        if rest == body {
            assert(label =~= label_text(package, name));
        }
    } else if label == label_text(package, name) {
        assert(label.take(2) =~= prefix);
        assert(prefix.is_prefix_of(label));
    }
}

/// The key of a configured target. It leaves open the execution platform and any transition of
/// the rule.
#[derive(Debug, PartialEq, Eq)]
pub struct ConfiguredTargetKey {
    pub package: String,
    pub name: String,
    pub configuration: Option<String>,
}

/// [`ConfiguredTargetKey`] over characters.
#[verifier::ext_equal]
pub struct ConfiguredTargetKeyView {
    pub package: Seq<char>,
    pub name: Seq<char>,
    pub configuration: Option<Seq<char>>,
}

impl View for ConfiguredTargetKey {
    type V = ConfiguredTargetKeyView;

    open spec fn view(&self) -> ConfiguredTargetKeyView {
        ConfiguredTargetKeyView {
            package: self.package@,
            name: self.name@,
            configuration: text_opt(self.configuration),
        }
    }
}

impl Clone for ConfiguredTargetKey {
    fn clone(&self) -> (r: Self)
        ensures
            r@ == self@,
    {
        ConfiguredTargetKey {
            package: self.package.clone(),
            name: self.name.clone(),
            configuration: match &self.configuration {
                Some(c) => Some(c.clone()),
                None => None,
            },
        }
    }
}

/// The error that says `detail` of a target pattern.
pub open spec fn bad_pattern(detail: Seq<char>) -> ErrorView {
    ErrorView::Unsupported { what: "target pattern"@, detail }
}

/// What a target pattern names: the target `//package:name` in no particular configuration, the
/// name not empty and neither part holding the recursive `...`. Everything else is unsupported.
pub open spec fn pattern_key(pattern: Seq<char>) -> Result<ConfiguredTargetKeyView, ErrorView> {
    if after_prefix(pattern, "//"@) is None {
        Err(
            bad_pattern(
                "expected an absolute label '//pkg:name', got '"@ + pattern
                    + "' (v1 has no relative or bare-name patterns)"@,
            ),
        )
    } else {
        match label_parts(pattern) {
            Some((package, name)) => if name.len() == 0 {
                Err(bad_pattern("expected '//pkg:name', got '"@ + pattern + "'"@))
            } else if has_run(package, "..."@) || has_run(name, "..."@) {
                Err(
                    bad_pattern(
                        "recursive patterns ('...') are not supported in v1: '"@ + pattern + "'"@,
                    ),
                )
            } else {
                Ok(ConfiguredTargetKeyView { package, name, configuration: None })
            },
            None => Err(bad_pattern("expected '//pkg:name', got '"@ + pattern + "'"@)),
        }
    }
}

fn unsupported(detail: String) -> (r: Error)
    ensures
        r@ == bad_pattern(detail@),
{
    Error::Unsupported { what: "target pattern".to_owned(), detail }
}

/// Reads a target pattern.
pub fn parse_target_pattern(pattern: &str) -> (r: Result<ConfiguredTargetKey, Error>)
    ensures
        match r {
            Ok(key) => pattern_key(pattern@) == Ok::<ConfiguredTargetKeyView, ErrorView>(key@),
            Err(e) => pattern_key(pattern@) == Err::<ConfiguredTargetKeyView, ErrorView>(e@),
        },
{
    let rest = match strip_prefix(pattern, "//") {
        Some(rest) => rest,
        None => {
            let detail = "expected an absolute label '//pkg:name', got '".to_owned().concat(
                pattern,
            ).concat("' (v1 has no relative or bare-name patterns)");
            return Err(unsupported(detail));
        },
    };
    match split_once(rest, ':') {
        Some((package, name)) => {
            if name.is_empty() {
                let detail = "expected '//pkg:name', got '".to_owned().concat(pattern).concat("'");
                Err(unsupported(detail))
            } else if contains_run(package, "...") || contains_run(name, "...") {
                let detail = "recursive patterns ('...') are not supported in v1: '".to_owned().concat(
                    pattern,
                ).concat("'");
                Err(unsupported(detail))
            } else {
                Ok(
                    ConfiguredTargetKey {
                        package: package.to_owned(),
                        name: name.to_owned(),
                        configuration: None,
                    },
                )
            }
        },
        None => {
            let detail = "expected '//pkg:name', got '".to_owned().concat(pattern).concat("'");
            Err(unsupported(detail))
        },
    }
}

/// Labels and their parts correspond. A label is split into a package and a name exactly when it
/// is two slashes, the package, a colon and the name, the package holding no colon.
pub proof fn law_labels(label: Seq<char>, package: Seq<char>, name: Seq<char>)
    ensures
        label_parts(label) == Some((package, name)) <==> label == "//"@ + package + ":"@ + name
            && !package.contains(':'),
        label_parts(label) is None <==> (forall|p: Seq<char>, n: Seq<char>|
            label == #[trigger] ("//"@ + p + ":"@ + n) ==> p.contains(':')),
        label_text(package, name) == "//"@ + package + ":"@ + name,
{
    lemma_label_parts(label, package, name);
    if let Some((p, n)) = label_parts(label) {
        lemma_label_parts(label, p, n);
        assert(label == "//"@ + p + ":"@ + n);
    } else {
        assert forall|p: Seq<char>, n: Seq<char>| label == #[trigger] ("//"@ + p + ":"@ + n)
            implies p.contains(':') by {
            lemma_label_parts(label, p, n);
        }
    }
}

/// Patterns and targets correspond. A pattern is accepted with a package and a name exactly when
/// it is the label written from them, the package holding no colon, the name not empty, and
/// neither holding `...`; so nothing but a plain absolute label is accepted, and no two labels
/// name one target.
pub proof fn law_patterns_are_labels(pattern: Seq<char>, package: Seq<char>, name: Seq<char>)
    ensures
        pattern_key(pattern) == Ok::<ConfiguredTargetKeyView, ErrorView>(
            ConfiguredTargetKeyView { package, name, configuration: None },
        ) <==> {
            &&& pattern == "//"@ + package + ":"@ + name
            &&& !package.contains(':')
            &&& name.len() > 0
            &&& forall|a: Seq<char>, b: Seq<char>| package != #[trigger] (a + "..."@ + b)
            &&& forall|a: Seq<char>, b: Seq<char>| name != #[trigger] (a + "..."@ + b)
        },
        pattern_key(pattern) matches Ok(key) ==> key.configuration is None,
{
    lemma_label_parts(pattern, package, name);
    law_runs(package, "..."@);
    law_runs(name, "..."@);
    assert((forall|a: Seq<char>, b: Seq<char>| package != #[trigger] (a + "..."@ + b))
        == !has_run(package, "..."@));
    assert((forall|a: Seq<char>, b: Seq<char>| name != #[trigger] (a + "..."@ + b)) == !has_run(
        name,
        "..."@,
    ));
}

/// Every pattern that is not accepted is unsupported, and the error quotes it: one that does not
/// begin with two slashes for that; one without a colon after them, or with nothing after the
/// first colon, for lacking a name; and one with `...` in either part for being recursive.
pub proof fn law_rejected_patterns(
    pattern: Seq<char>,
    rest: Seq<char>,
    package: Seq<char>,
    name: Seq<char>,
)
    ensures
        !"//"@.is_prefix_of(pattern) ==> pattern_key(pattern) == Err::<
            ConfiguredTargetKeyView,
            ErrorView,
        >(
            ErrorView::Unsupported {
                what: "target pattern"@,
                detail: "expected an absolute label '//pkg:name', got '"@ + pattern
                    + "' (v1 has no relative or bare-name patterns)"@,
            },
        ),
        !rest.contains(':') && (pattern == "//"@ + rest || pattern == "//"@ + rest + ":"@)
            ==> pattern_key(pattern) == Err::<ConfiguredTargetKeyView, ErrorView>(
            ErrorView::Unsupported {
                what: "target pattern"@,
                detail: "expected '//pkg:name', got '"@ + pattern + "'"@,
            },
        ),
        pattern == "//"@ + package + ":"@ + name && !package.contains(':') && name.len() > 0 && (
        exists|a: Seq<char>, b: Seq<char>|
            package == #[trigger] (a + "..."@ + b) || name == a + "..."@ + b) ==> pattern_key(
            pattern,
        ) == Err::<ConfiguredTargetKeyView, ErrorView>(
            ErrorView::Unsupported {
                what: "target pattern"@,
                detail: "recursive patterns ('...') are not supported in v1: '"@ + pattern + "'"@,
            },
        ),
{
    lemma_label_parts(pattern, package, name);
    law_runs(package, "..."@);
    law_runs(name, "..."@);
    reveal_strlit("//");
    reveal_strlit(":");
    if !rest.contains(':') {
        if pattern == "//"@ + rest {
            assert(pattern.skip(2) =~= rest);
            rest.index_of_first_ensures(':');
            assert("//"@ =~= pattern.take(2));
        }
        if pattern == "//"@ + rest + ":"@ {
            lemma_label_parts(pattern, rest, Seq::empty());
            assert(pattern =~= label_text(rest, Seq::empty()));
            assert("//"@ =~= pattern.take(2));
        }
    }
    if pattern == "//"@ + package + ":"@ + name {
        assert("//"@ =~= pattern.take(2));
    }
}

/// A key is seen whole.
pub proof fn law_keys_are_seen_whole(key: ConfiguredTargetKey)
    ensures
        key@.package == key.package@,
        key@.name == key.name@,
        key.configuration matches Some(c) ==> key@.configuration == Some(c@),
        key.configuration is None ==> key@.configuration is None,
{
}

} // verus!
