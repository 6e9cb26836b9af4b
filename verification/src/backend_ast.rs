//! The structural query engine: source text is parsed into a syntax tree
//! for a named grammar, a declarative pattern is compiled for that grammar
//! and evaluated against the tree, and each match is reported by the byte
//! range of its first capture.
//!
//! Grammars are resolved through an explicit registry. A query is compiled
//! for the grammar the text was parsed with and for no other.

use tree_sitter::StreamingIterator;
use vstd::prelude::*;

verus! {

/// A syntax tree of the `tree-sitter` crate.
#[verifier::external_type_specification]
#[verifier::external_body]
pub struct ExTree(tree_sitter::Tree);

/// A compiled query of the `tree-sitter` crate.
#[verifier::external_type_specification]
#[verifier::external_body]
pub struct ExQuery(tree_sitter::Query);

/// The error with which `tree-sitter` rejects a pattern.
#[verifier::external_type_specification]
#[verifier::external_body]
pub struct ExQueryError(tree_sitter::QueryError);

/// The error with which a `tree-sitter` parser rejects a grammar.
#[verifier::external_type_specification]
#[verifier::external_body]
pub struct ExLanguageError(tree_sitter::LanguageError);

/// What `str::to_lowercase` makes of a text.
pub uninterp spec fn lowercased(text: Seq<char>) -> Seq<char>;

/// What a fresh `tree_sitter::Parser` with the Python grammar returns for a
/// source text: the refusal of the grammar, no tree, or the tree.
pub uninterp spec fn python_tree(code: Seq<char>) -> Result<
    Option<tree_sitter::Tree>,
    tree_sitter::LanguageError,
>;

/// What `tree_sitter::Query::new` returns for a pattern and the Python
/// grammar.
pub uninterp spec fn python_query(pattern: Seq<char>) -> Result<
    tree_sitter::Query,
    tree_sitter::QueryError,
>;

/// The matches that a fresh `tree_sitter::QueryCursor` yields for a query on
/// the root of a tree, in the order in which it yields them, each as the
/// byte ranges (start, end) of its captures in capture order.
pub uninterp spec fn query_captures(
    query: tree_sitter::Query,
    tree: tree_sitter::Tree,
    code: Seq<char>,
) -> Seq<Seq<(usize, usize)>>;

/// The text with which a `tree_sitter::LanguageError` displays itself.
pub uninterp spec fn language_error_text(error: tree_sitter::LanguageError) -> Seq<char>;

/// The text with which a `tree_sitter::QueryError` displays itself: the
/// place in the pattern, the kind of fault and the engine's message.
pub uninterp spec fn query_error_text(error: tree_sitter::QueryError) -> Seq<char>;

/// Formats a `tree_sitter::LanguageError` through its `Display`, which
/// reads nothing but the error.
#[verifier::external_body]
pub(crate) fn display_language_error(error: &tree_sitter::LanguageError) -> (text: String)
    ensures
        text@ == language_error_text(*error),
{
    format!("{}", error)
}

/// Formats a `tree_sitter::QueryError` through its `Display`, which reads
/// nothing but the error.
#[verifier::external_body]
pub(crate) fn display_query_error(error: &tree_sitter::QueryError) -> (text: String)
    ensures
        text@ == query_error_text(*error),
{
    format!("{}", error)
}

/// Calls `str::to_lowercase`.
#[verifier::external_body]
pub(crate) fn to_lowercase(text: &str) -> (lowered: String)
    ensures
        lowered@ == lowercased(text@),
{
    text.to_lowercase()
}

/// Makes a `tree_sitter::Parser`, assigns it the grammar
/// `tree_sitter_python::LANGUAGE` with `set_language` and calls `parse` on
/// the text, with no earlier tree.
#[verifier::external_body]
pub(crate) fn parse_python(code: &str) -> (parsed: Result<
    Option<tree_sitter::Tree>,
    tree_sitter::LanguageError,
>)
    ensures
        parsed == python_tree(code@),
{
    let mut parser = tree_sitter::Parser::new();
    parser.set_language(&tree_sitter_python::LANGUAGE.into())?;
    Ok(parser.parse(code, None))
}

/// Calls `tree_sitter::Query::new` with the grammar
/// `tree_sitter_python::LANGUAGE`.
#[verifier::external_body]
pub(crate) fn compile_python_query(pattern: &str) -> (compiled: Result<
    tree_sitter::Query,
    tree_sitter::QueryError,
>)
    ensures
        compiled == python_query(pattern@),
{
    tree_sitter::Query::new(&tree_sitter_python::LANGUAGE.into(), pattern)
}

/// Calls `tree_sitter::QueryCursor::matches` on the root node of the tree
/// and walks the matches to the end, taking from each capture the start and
/// end byte of its node. Text predicates of the query cut the text at the
/// byte ranges of the tree's nodes, so the tree has to be the one parsed
/// from this very text.
#[verifier::external_body]
pub(crate) fn collect_captures(
    query: &tree_sitter::Query,
    tree: &tree_sitter::Tree,
    code: &str,
) -> (found: Vec<Vec<(usize, usize)>>)
    requires
        python_tree(code@) == Ok::<Option<tree_sitter::Tree>, tree_sitter::LanguageError>(
            Some(*tree),
        ),
    ensures
        found@.map_values(|m: Vec<(usize, usize)>| m@) == query_captures(*query, *tree, code@),
{
    let mut cursor = tree_sitter::QueryCursor::new();
    let mut matches = cursor.matches(query, tree.root_node(), code.as_bytes());
    let mut found = Vec::new();
    while let Some(m) = matches.next() {
        found.push(m.captures().iter().map(|c| (c.node.start_byte(), c.node.end_byte())).collect());
    }
    found
}

/// The grammars that can be resolved.
#[derive(Clone, Copy, Debug, PartialEq, Eq, Structural)]
pub enum Grammar {
    Python,
}

/// The grammar registered under a lower-case identifier.
pub open spec fn registered(identifier: Seq<char>) -> Option<Grammar> {
    if identifier == "python"@ {
        Some(Grammar::Python)
    } else {
        None
    }
}

/// A structural match: the byte range of the first captured node.
#[derive(Clone, Copy, Debug, PartialEq, Eq, Structural)]
pub struct AstMatch {
    pub start: usize,
    pub end: usize,
}

/// Why a structural query failed. No partial results come with a failure.
#[derive(Debug)]
pub enum AstError {
    /// No grammar is registered under this identifier.
    UnsupportedLanguage(String),
    /// The parser refused the grammar.
    Grammar(tree_sitter::LanguageError),
    /// The text could not be parsed.
    Parse,
    /// The pattern is malformed for the grammar.
    Pattern(tree_sitter::QueryError),
}

/// What a failure is, up to the text of the identifier.
pub enum AstErrorView {
    UnsupportedLanguage(Seq<char>),
    Grammar(tree_sitter::LanguageError),
    Parse,
    Pattern(tree_sitter::QueryError),
}

impl AstErrorView {
    /// The message of a failure. An unsupported grammar is named; what the
    /// parser or the query compiler objected to is told in their own words.
    pub open spec fn message(self) -> Seq<char> {
        match self {
            AstErrorView::UnsupportedLanguage(id) => "Unsupported language: "@ + id,
            AstErrorView::Grammar(e) => language_error_text(e),
            AstErrorView::Parse => "Failed to parse code"@,
            AstErrorView::Pattern(e) => query_error_text(e),
        }
    }
}

impl AstError {
    /// The message to show for this failure.
    pub fn message(&self) -> (text: String)
        ensures
            text@ == self@.message(),
    {
        match self {
            AstError::UnsupportedLanguage(id) => "Unsupported language: ".to_owned().concat(
                id.as_str(),
            ),
            AstError::Grammar(e) => display_language_error(e),
            AstError::Parse => "Failed to parse code".to_owned(),
            AstError::Pattern(e) => display_query_error(e),
        }
    }
}

impl View for AstError {
    type V = AstErrorView;

    open spec fn view(&self) -> AstErrorView {
        match self {
            AstError::UnsupportedLanguage(id) => AstErrorView::UnsupportedLanguage(id@),
            AstError::Grammar(e) => AstErrorView::Grammar(*e),
            AstError::Parse => AstErrorView::Parse,
            AstError::Pattern(e) => AstErrorView::Pattern(*e),
        }
    }
}

/// The first capture of every match that has one, in match order.
pub open spec fn first_capture_ranges(matches: Seq<Seq<(usize, usize)>>) -> Seq<AstMatch>
    decreases matches.len(),
{
    if matches.len() == 0 {
        Seq::empty()
    } else if matches.last().len() == 0 {
        first_capture_ranges(matches.drop_last())
    } else {
        first_capture_ranges(matches.drop_last()).push(
            AstMatch { start: matches.last()[0].0, end: matches.last()[0].1 },
        )
    }
}

/// What a structural query returns: the failure to resolve the grammar, to
/// parse the text or to compile the pattern, in that order of precedence,
/// else the matches.
pub open spec fn run_outcome(pattern: Seq<char>, lang: Seq<char>, code: Seq<char>) -> Result<
    Seq<AstMatch>,
    AstErrorView,
> {
    match registered(lowercased(lang)) {
        None => Err(AstErrorView::UnsupportedLanguage(lang)),
        Some(Grammar::Python) => match python_tree(code) {
            Err(e) => Err(AstErrorView::Grammar(e)),
            Ok(None) => Err(AstErrorView::Parse),
            Ok(Some(tree)) => match python_query(pattern) {
                Err(e) => Err(AstErrorView::Pattern(e)),
                Ok(query) => Ok(first_capture_ranges(query_captures(query, tree, code))),
            },
        },
    }
}

/// Reports each match by its first capture. A match without captures has
/// no location and is passed over; the order of the matches is kept.
pub fn first_captures(matches: &Vec<Vec<(usize, usize)>>) -> (found: Vec<AstMatch>)
    ensures
        found@ == first_capture_ranges(matches@.map_values(|m: Vec<(usize, usize)>| m@)),
{
    let ghost all = matches@.map_values(|m: Vec<(usize, usize)>| m@);
    let mut found: Vec<AstMatch> = Vec::new();
    let mut k: usize = 0;
    proof {
        assert(all.subrange(0, 0) =~= Seq::<Seq<(usize, usize)>>::empty());
    }
    while k < matches.len()
        invariant
            k <= matches.len(),
            all == matches@.map_values(|m: Vec<(usize, usize)>| m@),
            found@ == first_capture_ranges(all.subrange(0, k as int)),
        decreases matches.len() - k,
    {
        proof {
            assert(all.subrange(0, k + 1).drop_last() =~= all.subrange(0, k as int));
            assert(all.subrange(0, k + 1).last() == matches@[k as int]@);
        }
        let captures = &matches[k];
        if captures.len() > 0 {
            let first = captures[0];
            found.push(AstMatch { start: first.0, end: first.1 });
        }
        k = k + 1;
    }
    proof {
        assert(all.subrange(0, matches.len() as int) =~= all);
    }
    found
}

/// Entry point of the structural query engine.
pub struct AstBackend;

impl Default for AstBackend {
    fn default() -> (backend: Self)
        ensures
            backend == AstBackend,
    {
        AstBackend
    }
}

impl AstBackend {
    pub fn new() -> (backend: Self)
        ensures
            backend == AstBackend,
    {
        AstBackend
    }

    /// Looks a grammar identifier up in the registry, whatever its case.
    pub fn grammar(&self, lang: &str) -> (found: Option<Grammar>)
        ensures
            found == registered(lowercased(lang@)),
    {
        let lowered = to_lowercase(lang);
        if lowered == "python".to_owned() {
            Some(Grammar::Python)
        } else {
            None
        }
    }

    /// Runs a structural pattern over source text. The text is parsed once
    /// into a full syntax tree, the pattern is compiled for the same grammar,
    /// and the matches come back in the order in which the query engine finds
    /// them in the document.
    pub fn run(&self, pattern: &str, lang: &str, code: &str) -> (found: Result<
        Vec<AstMatch>,
        AstError,
    >)
        ensures
            match found {
                Ok(matches) => run_outcome(pattern@, lang@, code@) == Ok::<
                    Seq<AstMatch>,
                    AstErrorView,
                >(matches@),
                Err(e) => run_outcome(pattern@, lang@, code@) == Err::<
                    Seq<AstMatch>,
                    AstErrorView,
                >(e@),
            },
    {
        match self.grammar(lang) {
            None => Err(AstError::UnsupportedLanguage(lang.to_owned())),
            Some(Grammar::Python) => {
                let tree = match parse_python(code) {
                    Err(e) => {
                        return Err(AstError::Grammar(e));
                    },
                    Ok(None) => {
                        return Err(AstError::Parse);
                    },
                    Ok(Some(tree)) => tree,
                };
                let query = match compile_python_query(pattern) {
                    Err(e) => {
                        return Err(AstError::Pattern(e));
                    },
                    Ok(query) => query,
                };
                let captures = collect_captures(&query, &tree, code);
                Ok(first_captures(&captures))
            },
        }
    }
}

} // verus!
