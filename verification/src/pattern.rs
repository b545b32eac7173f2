//! Regular expressions, as the `regex` crate compiles and runs them.
use vstd::prelude::*;

verus! {

/// The expression for what is cut out of an HTML body: scripts and style sheets
/// with what they hold, and all other tags.
pub const TAG_PATTERN: &'static str = "(?is)<script[^>]*>.*?</script>|<style[^>]*>.*?</style>|<[^>]+>";

/// The type `regex::Regex`: a compiled expression, carried but never looked
/// into.
#[verifier::external_type_specification]
#[verifier::external_body]
pub struct ExRegex(regex::Regex);

/// What `regex::RegexBuilder::build` returns for an expression: the compiled
/// expression, or the text of the error. The other settings of the builder are
/// the crate's defaults.
pub uninterp spec fn regex_build(source: Seq<char>, ignore_case: bool) -> Result<
    regex::Regex,
    Seq<char>,
>;

/// What `regex::Regex::is_match` answers for a text, once the expression is
/// compiled.
pub uninterp spec fn regex_is_match(source: Seq<char>, ignore_case: bool, text: Seq<char>) -> bool;

/// What `regex::Regex::replace_all` makes of a text, once the expression is
/// compiled.
pub uninterp spec fn regex_replace_all(
    source: Seq<char>,
    ignore_case: bool,
    text: Seq<char>,
    with: Seq<char>,
) -> Seq<char>;

/// `regex::RegexBuilder::build`, with `case_insensitive` set to `ignore_case`.
/// Whether the expression compiles, what it compiles to, and the text of the
/// error are taken to depend on the two arguments alone. `TAG_PATTERN` compiles:
/// flags, literals, negated classes, repetition and alternation are all that it
/// is made of, and the documented syntax has them.
#[verifier::external_body]
fn build_regex(source: &str, ignore_case: bool) -> (r: Result<regex::Regex, String>)
    ensures
        match r {
            Ok(re) => regex_build(source@, ignore_case) == Ok::<regex::Regex, Seq<char>>(re),
            Err(e) => regex_build(source@, ignore_case) == Err::<regex::Regex, Seq<char>>(e@),
        },
        source@ == TAG_PATTERN@ ==> r is Ok,
{
    let mut builder = regex::RegexBuilder::new(source);
    builder.case_insensitive(ignore_case).build().map_err(|e| e.to_string())
}

/// `regex::Regex::is_match`: for an expression that was compiled from `source`,
/// the answer depends on `source`, the case setting and the text alone.
#[verifier::external_body]
fn run_is_match(re: &regex::Regex, text: &str) -> (r: bool)
    ensures
        (forall|source: Seq<char>, ignore_case: bool| #[trigger]
            regex_build(source, ignore_case) == Ok::<regex::Regex, Seq<char>>(*re) ==> r
                == regex_is_match(source, ignore_case, text@)),
{
    re.is_match(text)
}

/// `regex::Regex::replace_all`: for an expression that was compiled from
/// `source`, the result depends on `source`, the case setting, the text and the
/// replacement alone.
#[verifier::external_body]
fn run_replace_all(re: &regex::Regex, text: &str, with: &str) -> (r: String)
    ensures
        (forall|source: Seq<char>, ignore_case: bool| #[trigger]
            regex_build(source, ignore_case) == Ok::<regex::Regex, Seq<char>>(*re) ==> r@
                == regex_replace_all(source, ignore_case, text@, with@)),
{
    re.replace_all(text, with).into_owned()
}

/// A regular expression that has been compiled.
pub struct Pattern {
    regex: regex::Regex,
    source: Ghost<Seq<char>>,
    ignore_case: Ghost<bool>,
}

impl Pattern {
    /// The expression as it was given.
    pub closed spec fn source(self) -> Seq<char> {
        self.source@
    }

    /// Whether upper and lower case are taken as one.
    pub closed spec fn ignores_case(self) -> bool {
        self.ignore_case@
    }

    #[verifier::type_invariant]
    closed spec fn compiled(self) -> bool {
        regex_build(self.source@, self.ignore_case@) == Ok::<regex::Regex, Seq<char>>(self.regex)
    }

    /// Compiles an expression. Where that fails the text says why.
    pub fn new(source: &str, ignore_case: bool) -> (r: Result<Pattern, String>)
        ensures
            r is Ok <==> regex_build(source@, ignore_case) is Ok,
            match r {
                Ok(p) => p.source() == source@ && p.ignores_case() == ignore_case,
                Err(e) => regex_build(source@, ignore_case) == Err::<regex::Regex, Seq<char>>(e@),
            },
            source@ == TAG_PATTERN@ ==> r is Ok,
    {
        match build_regex(source, ignore_case) {
            Ok(regex) => Ok(
                Pattern { regex, source: Ghost(source@), ignore_case: Ghost(ignore_case) },
            ),
            Err(e) => Err(e),
        }
    }

    /// Whether the expression matches somewhere in the text.
    pub fn is_match(&self, text: &str) -> (r: bool)
        ensures
            r == regex_is_match(self.source(), self.ignores_case(), text@),
    {
        proof {
            use_type_invariant(self);
        }
        run_is_match(&self.regex, text)
    }

    /// The text with every match replaced.
    pub fn replace_all(&self, text: &str, with: &str) -> (r: String)
        ensures
            r@ == regex_replace_all(self.source(), self.ignores_case(), text@, with@),
    {
        proof {
            use_type_invariant(self);
        }
        run_replace_all(&self.regex, text, with)
    }
}

} // verus!
