//! Comment delimiters per language, looked up by file extension.
use vstd::prelude::*;

use crate::text::{chars_of, same_text, starts_with_exec, starts_with_text};

verus! {

/// Line-comment prefixes and block-comment delimiter pairs of a language.
#[derive(Debug, Clone)]
pub struct CommentSyntax {
    /// Line comment prefixes.
    pub line_comment: Vec<&'static str>,
    /// Block comment delimiter pairs (start, end).
    pub block_comment: Vec<(&'static str, &'static str)>,
}

/// The line-comment prefixes, as texts.
pub open spec fn line_prefixes(s: CommentSyntax) -> Seq<Seq<char>> {
    s.line_comment@.map_values(|p: &'static str| p@)
}

/// The block-comment pairs, as texts.
pub open spec fn block_pairs(s: CommentSyntax) -> Seq<(Seq<char>, Seq<char>)> {
    s.block_comment@.map_values(|p: (&'static str, &'static str)| (p.0@, p.1@))
}

/// Line-comment prefixes and block pairs for an extension; unknown extensions get a
/// permissive fallback.
pub open spec fn syntax_for(ext: Seq<char>) -> (Seq<Seq<char>>, Seq<(Seq<char>, Seq<char>)>) {
    // C-family: `//` and `/* */`
    if ext == "rs"@ || ext == "go"@ || ext == "java"@ || ext == "js"@ || ext == "jsx"@ || ext == "ts"@ || ext == "tsx"@ || ext == "c"@ || ext == "cpp"@ || ext == "cc"@ || ext == "h"@ || ext == "hpp"@ || ext == "cs"@ || ext == "swift"@ || ext == "kt"@ || ext == "kts"@ || ext == "scala"@ || ext == "groovy"@ || ext == "dart"@ || ext == "m"@ || ext == "mm"@ || ext == "zig"@ {
        (seq!["//"@], seq![("/*"@, "*/"@)])
    // Hash comment languages
    } else if ext == "py"@ || ext == "rb"@ || ext == "sh"@ || ext == "bash"@ || ext == "zsh"@ || ext == "fish"@ || ext == "pl"@ || ext == "pm"@ || ext == "r"@ || ext == "R"@ || ext == "yaml"@ || ext == "yml"@ || ext == "toml"@ || ext == "ini"@ || ext == "conf"@ || ext == "cfg"@ || ext == "tf"@ || ext == "tfvars"@ || ext == "Makefile"@ || ext == "mk"@ || ext == "cmake"@ || ext == "dockerfile"@ || ext == "Dockerfile"@ || ext == "gitignore"@ || ext == "dockerignore"@ || ext == "editorconfig"@ {
        (seq!["#"@], Seq::<(Seq<char>, Seq<char>)>::empty())
    // HTML/XML family
    } else if ext == "html"@ || ext == "htm"@ || ext == "xml"@ || ext == "xhtml"@ || ext == "svg"@ || ext == "vue"@ || ext == "svelte"@ {
        (Seq::<Seq<char>>::empty(), seq![("<!--"@, "-->"@)])
    // CSS family
    } else if ext == "css"@ || ext == "scss"@ || ext == "sass"@ || ext == "less"@ {
        (seq!["//"@], seq![("/*"@, "*/"@)])
    // SQL
    } else if ext == "sql"@ {
        (seq!["--"@], seq![("/*"@, "*/"@)])
    // Haskell
    } else if ext == "hs"@ {
        (seq!["--"@], seq![("{-"@, "-}"@)])
    // Lisp family
    } else if ext == "lisp"@ || ext == "cl"@ || ext == "el"@ || ext == "clj"@ || ext == "cljs"@ || ext == "cljc"@ || ext == "edn"@ || ext == "scm"@ || ext == "rkt"@ {
        (seq![";"@], Seq::<(Seq<char>, Seq<char>)>::empty())
    // Lua
    } else if ext == "lua"@ {
        (seq!["--"@], seq![("--[["@, "]]"@)])
    // Erlang
    } else if ext == "erl"@ || ext == "hrl"@ {
        (seq!["%"@], Seq::<(Seq<char>, Seq<char>)>::empty())
    // Elixir
    } else if ext == "ex"@ || ext == "exs"@ {
        (seq!["#"@], Seq::<(Seq<char>, Seq<char>)>::empty())
    // Vim
    } else if ext == "vim"@ {
        (seq!["\""@], Seq::<(Seq<char>, Seq<char>)>::empty())
    // Batch
    } else if ext == "bat"@ || ext == "cmd"@ {
        (seq!["REM"@, "::"@], Seq::<(Seq<char>, Seq<char>)>::empty())
    // PowerShell
    } else if ext == "ps1"@ || ext == "psm1"@ || ext == "psd1"@ {
        (seq!["#"@], seq![("<#"@, "#>"@)])
    } else {
        (seq!["//"@, "#"@, "--"@], seq![("/*"@, "*/"@)])
    }
}

fn make(line_comment: Vec<&'static str>, block_comment: Vec<(&'static str, &'static str)>) -> (r: CommentSyntax)
    ensures
        r.line_comment == line_comment,
        r.block_comment == block_comment,
{
    CommentSyntax { line_comment, block_comment }
}

impl CommentSyntax {
    /// Looks up comment syntax by file extension, with a permissive fallback for
    /// unknown extensions.
    pub fn for_extension(ext: &str) -> (r: CommentSyntax)
        ensures
            (line_prefixes(r), block_pairs(r)) == syntax_for(ext@),
    {
        let r = if same_text(ext, "rs") || same_text(ext, "go") || same_text(ext, "java") || same_text(ext, "js") || same_text(ext, "jsx") || same_text(ext, "ts") || same_text(ext, "tsx") || same_text(ext, "c") || same_text(ext, "cpp") || same_text(ext, "cc") || same_text(ext, "h") || same_text(ext, "hpp") || same_text(ext, "cs") || same_text(ext, "swift") || same_text(ext, "kt") || same_text(ext, "kts") || same_text(ext, "scala") || same_text(ext, "groovy") || same_text(ext, "dart") || same_text(ext, "m") || same_text(ext, "mm") || same_text(ext, "zig") {
            make(vec!["//"], vec![("/*", "*/")])
        } else if same_text(ext, "py") || same_text(ext, "rb") || same_text(ext, "sh") || same_text(ext, "bash") || same_text(ext, "zsh") || same_text(ext, "fish") || same_text(ext, "pl") || same_text(ext, "pm") || same_text(ext, "r") || same_text(ext, "R") || same_text(ext, "yaml") || same_text(ext, "yml") || same_text(ext, "toml") || same_text(ext, "ini") || same_text(ext, "conf") || same_text(ext, "cfg") || same_text(ext, "tf") || same_text(ext, "tfvars") || same_text(ext, "Makefile") || same_text(ext, "mk") || same_text(ext, "cmake") || same_text(ext, "dockerfile") || same_text(ext, "Dockerfile") || same_text(ext, "gitignore") || same_text(ext, "dockerignore") || same_text(ext, "editorconfig") {
            make(vec!["#"], Vec::new())
        } else if same_text(ext, "html") || same_text(ext, "htm") || same_text(ext, "xml") || same_text(ext, "xhtml") || same_text(ext, "svg") || same_text(ext, "vue") || same_text(ext, "svelte") {
            make(Vec::new(), vec![("<!--", "-->")])
        } else if same_text(ext, "css") || same_text(ext, "scss") || same_text(ext, "sass") || same_text(ext, "less") {
            make(vec!["//"], vec![("/*", "*/")])
        } else if same_text(ext, "sql") {
            make(vec!["--"], vec![("/*", "*/")])
        } else if same_text(ext, "hs") {
            make(vec!["--"], vec![("{-", "-}")])
        } else if same_text(ext, "lisp") || same_text(ext, "cl") || same_text(ext, "el") || same_text(ext, "clj") || same_text(ext, "cljs") || same_text(ext, "cljc") || same_text(ext, "edn") || same_text(ext, "scm") || same_text(ext, "rkt") {
            make(vec![";"], Vec::new())
        } else if same_text(ext, "lua") {
            make(vec!["--"], vec![("--[[", "]]")])
        } else if same_text(ext, "erl") || same_text(ext, "hrl") {
            make(vec!["%"], Vec::new())
        } else if same_text(ext, "ex") || same_text(ext, "exs") {
            make(vec!["#"], Vec::new())
        } else if same_text(ext, "vim") {
            make(vec!["\""], Vec::new())
        } else if same_text(ext, "bat") || same_text(ext, "cmd") {
            make(vec!["REM", "::"], Vec::new())
        } else if same_text(ext, "ps1") || same_text(ext, "psm1") || same_text(ext, "psd1") {
            make(vec!["#"], vec![("<#", "#>")])
        } else {
            make(vec!["//", "#", "--"], vec![("/*", "*/")])
        };
        proof {
            assert(line_prefixes(r) =~= syntax_for(ext@).0);
            assert(block_pairs(r) =~= syntax_for(ext@).1);
        }
        r
    }

    /// Whether a (trimmed) line starts with one of the line-comment prefixes.
    pub fn is_line_comment(&self, trimmed_line: &str) -> (r: bool)
        ensures
            r == exists|i: int|
                0 <= i < line_prefixes(*self).len() && starts_with_text(
                    trimmed_line@,
                    #[trigger] line_prefixes(*self)[i],
                ),
    {
        let line = chars_of(trimmed_line);
        let mut i: usize = 0;
        while i < self.line_comment.len()
            invariant
                0 <= i <= self.line_comment@.len(),
                line@ == trimmed_line@,
                forall|j: int|
                    0 <= j < i ==> !starts_with_text(line@, #[trigger] line_prefixes(*self)[j]),
            decreases self.line_comment@.len() - i,
        {
            let p = chars_of(self.line_comment[i]);
            assert(line_prefixes(*self)[i as int] == p@);
            if starts_with_exec(&line, &p) {
                return true;
            }
            i = i + 1;
        }
        false
    }
}

} // verus!
