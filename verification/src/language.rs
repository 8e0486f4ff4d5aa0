use vstd::prelude::*;
use crate::errors::AnalyzeError;
use crate::ts;

verus! {

/// The capability registry: which languages this run is able to analyze.
/// Requesting a language outside the set is a typed, file-level error.
#[derive(Clone, Copy, PartialEq, Eq, Structural, Debug)]
pub struct Capabilities {
    pub python: bool,
    pub rust: bool,
}

impl Capabilities {
    /// Whether this capability set enables `lang`.
    pub open spec fn spec_has(self, lang: Language) -> bool {
        match lang {
            Language::Python => self.python,
            Language::Rust => self.rust,
        }
    }

    /// A registry with every supported language enabled.
    pub fn full() -> (r: Capabilities)
        ensures
            forall|l: Language| r.spec_has(l),
    {
        Capabilities { python: true, rust: true }
    }

    pub fn has(&self, lang: Language) -> (r: bool)
        ensures
            r == self.spec_has(lang),
    {
        match lang {
            Language::Python => self.python,
            Language::Rust => self.rust,
        }
    }
}

/// The final component of a path: the suffix after the last '/'.
pub open spec fn spec_file_name(s: Seq<char>) -> Seq<char>
    decreases s.len(),
{
    if s.len() == 0 {
        s
    } else if s.last() == '/' {
        Seq::empty()
    } else {
        spec_file_name(s.drop_last()).push(s.last())
    }
}

/// The extension of a file name: the suffix after the last '.', provided that
/// '.' is not the name's first character (a leading dot marks a hidden file,
/// not an extension).
pub open spec fn spec_name_extension(name: Seq<char>) -> Option<Seq<char>>
    decreases name.len(),
{
    if name.len() <= 1 {
        None
    } else if name.last() == '.' {
        Some(Seq::<char>::empty())
    } else {
        match spec_name_extension(name.drop_last()) {
            Some(e) => Some(e.push(name.last())),
            None => None,
        }
    }
}

/// The extension of a path.
pub open spec fn spec_extension(path: Seq<char>) -> Option<Seq<char>> {
    spec_name_extension(spec_file_name(path))
}

/// The language an extension resolves to, if any.
pub open spec fn spec_lang_of_extension(e: Seq<char>) -> Option<Language> {
    if e == "py"@ {
        Some(Language::Python)
    } else if e == "rs"@ {
        Some(Language::Rust)
    } else {
        None
    }
}

/// What resolution returns for a path: a language for a supported extension,
/// and the exact error otherwise. Resolution reads the path alone, never the
/// file's content.
pub open spec fn spec_resolve(path: Seq<char>) -> Result<Language, AnalyzeError> {
    match spec_extension(path) {
        Option::None => Result::Err(AnalyzeError::MissingExtension),
        Option::Some(e) => match spec_lang_of_extension(e) {
            Option::Some(l) => Result::Ok(l),
            Option::None => Result::Err(AnalyzeError::UnknownExtension),
        },
    }
}

proof fn lemma_file_name_suffix(s: Seq<char>, k: int)
    requires
        0 <= k <= s.len(),
        k == 0 || s[k - 1] == '/',
        forall|j: int| k <= j < s.len() ==> s[j] != '/',
    ensures
        spec_file_name(s) == s.skip(k),
    decreases s.len(),
{
    if s.len() == 0 {
        assert(s.skip(0) =~= s);
    } else if s.len() == k {
        assert(s.last() == '/');
        assert(s.skip(k) =~= Seq::<char>::empty());
    } else {
        assert(s.last() != '/');
        lemma_file_name_suffix(s.drop_last(), k);
        assert(s.drop_last().skip(k).push(s.last()) =~= s.skip(k));
    }
}

proof fn lemma_extension_at(name: Seq<char>, d: int)
    requires
        1 <= d < name.len(),
        name[d] == '.',
        forall|j: int| d < j < name.len() ==> name[j] != '.',
    ensures
        spec_name_extension(name) == Some(name.skip(d + 1)),
    decreases name.len(),
{
    if d == name.len() - 1 {
        assert(name.last() == '.');
        assert(name.skip(d + 1) =~= Seq::<char>::empty());
    } else {
        assert(name.last() != '.');
        lemma_extension_at(name.drop_last(), d);
        assert(name.drop_last().skip(d + 1).push(name.last()) =~= name.skip(d + 1));
    }
}

proof fn lemma_extension_none(name: Seq<char>)
    requires
        forall|j: int| 1 <= j < name.len() ==> name[j] != '.',
    ensures
        spec_name_extension(name) is None,
    decreases name.len(),
{
    if name.len() <= 1 {
    } else {
        assert(name.last() != '.');
        lemma_extension_none(name.drop_last());
    }
}

/// A supported language tag. Each tag owns a grammar and a fixed query source.
#[derive(Clone, Copy, PartialEq, Eq, Structural, Debug, Hash)]
pub enum Language {
    Python,
    Rust,
}

impl Language {
    /// The name of the language, as shown in diagnostics.
    pub open spec fn spec_name(self) -> Seq<char> {
        match self {
            Language::Python => "python"@,
            Language::Rust => "rust"@,
        }
    }

    /// The fixed query source owned by the language.
    pub open spec fn spec_query_source(self) -> Seq<char> {
        match self {
            Language::Python => "(function_definition) @function\n(comment) @comment\n"@,
            Language::Rust => (
            "(function_item) @function\n(line_comment) @comment\n(block_comment) @comment\n"@),
        }
    }

    /// Human-readable name of this language.
    pub fn name(&self) -> (r: &str)
        ensures
            r@ == self.spec_name(),
    {
        match self {
            Language::Python => "python",
            Language::Rust => "rust",
        }
    }

    /// The language's query source, when the capability set enables it.
    pub fn queries(&self, caps: &Capabilities) -> (r: Result<&'static str, AnalyzeError>)
        ensures
            caps.spec_has(*self) ==> (r matches Ok(s) && s@ == self.spec_query_source()),
            !caps.spec_has(*self) ==> r == Err::<&'static str, _>(
                AnalyzeError::CapabilityMissing(*self),
            ),
    {
        if !caps.has(*self) {
            return Err(AnalyzeError::CapabilityMissing(*self));
        }
        match self {
            Language::Python => Ok("(function_definition) @function\n(comment) @comment\n"),
            Language::Rust => Ok(
                "(function_item) @function\n(line_comment) @comment\n(block_comment) @comment\n",
            ),
        }
    }

    /// Resolve a path to its language, from the file extension alone.
    pub fn resolve(path: &str) -> (r: Result<Language, AnalyzeError>)
        ensures
            r == spec_resolve(path@),
    {
        let n = path.unicode_len();
        // Index right after the last '/', or 0 when the path has none.
        let mut start: usize = 0;
        let mut i: usize = 0;
        while i < n
            invariant
                0 <= start <= i <= n,
                n == path@.len(),
                start == 0 || path@[start - 1] == '/',
                forall|j: int| start <= j < i ==> path@[j] != '/',
            decreases n - i,
        {
            if path.get_char(i) == '/' {
                start = i + 1;
            }
            i = i + 1;
        }
        proof {
            lemma_file_name_suffix(path@, start as int);
        }
        let ghost fname = path@.skip(start as int);
        // Index of the last '.' strictly inside the final component.
        let mut dot: usize = 0;
        let mut has_dot: bool = false;
        let mut k: usize = start;
        while k < n
            invariant
                start <= k <= n,
                n == path@.len(),
                has_dot ==> start < dot < k && path@[dot as int] == '.',
                has_dot ==> forall|j: int| dot < j < k ==> path@[j] != '.',
                !has_dot ==> forall|j: int| start < j < k ==> path@[j] != '.',
            decreases n - k,
        {
            if k > start && path.get_char(k) == '.' {
                dot = k;
                has_dot = true;
            }
            k = k + 1;
        }
        if !has_dot {
            proof {
                lemma_extension_none(fname);
            }
            return Err(AnalyzeError::MissingExtension);
        }
        proof {
            lemma_extension_at(fname, dot - start);
            assert(fname.skip(dot - start + 1) =~= path@.skip(dot + 1));
            assert(spec_extension(path@) == Some(path@.skip(dot + 1)));
        }
        let ghost ext = path@.skip(dot + 1);
        proof {
            reveal_strlit("py");
            reveal_strlit("rs");
        }
        if n - dot - 1 == 2 {
            let c1 = path.get_char(dot + 1);
            let c2 = path.get_char(dot + 2);
            proof {
                assert(ext.len() == 2);
                assert(ext[0] == path@[dot + 1] && ext[1] == path@[dot + 2]);
            }
            if c1 == 'p' && c2 == 'y' {
                proof {
                    assert(ext =~= "py"@);
                }
                return Ok(Language::Python);
            }
            if c1 == 'r' && c2 == 's' {
                proof {
                    assert(ext =~= "rs"@);
                }
                return Ok(Language::Rust);
            }
            return Err(AnalyzeError::UnknownExtension);
        }
        Err(AnalyzeError::UnknownExtension)
    }

    /// The language's grammar, when the capability set enables it.
    pub fn tree_sitter_language(&self, caps: &Capabilities) -> (r: Result<
        tree_sitter::Language,
        AnalyzeError,
    >)
        ensures
            caps.spec_has(*self) <==> r is Ok,
            caps.spec_has(*self) ==> r == Ok::<tree_sitter::Language, AnalyzeError>(
                ts::grammar_of(*self),
            ),
            !caps.spec_has(*self) ==> r == Err::<tree_sitter::Language, _>(
                AnalyzeError::CapabilityMissing(*self),
            ),
    {
        if !caps.has(*self) {
            return Err(AnalyzeError::CapabilityMissing(*self));
        }
        match self {
            Language::Python => Ok(ts::python_grammar()),
            Language::Rust => Ok(ts::rust_grammar()),
        }
    }
}

} // verus!
