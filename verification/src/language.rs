//! Recognising a file's programming language from its extension.
use vstd::prelude::*;
use crate::path::{extension_of, extension_range, lemma_extension_of_dotted_name};
use crate::text::{char_vec, views};
use crate::git_modes::{blob_mode_bits, tree_mode_bits};

verus! {

/// The language that an extension stands for, if any.
pub open spec fn language_of_extension(ext: Seq<char>) -> Option<Seq<char>> {
    if ext == "rs"@ {
        Some("rust"@)
    } else if ext == "js"@ {
        Some("javascript"@)
    } else if ext == "ts"@ {
        Some("typescript"@)
    } else if ext == "jsx"@ || ext == "tsx"@ {
        Some("react"@)
    } else if ext == "py"@ {
        Some("python"@)
    } else if ext == "java"@ {
        Some("java"@)
    } else if ext == "c"@ {
        Some("c"@)
    } else if ext == "cpp"@ || ext == "cc"@ {
        Some("cpp"@)
    } else if ext == "h"@ || ext == "hpp"@ {
        Some("cpp"@)
    } else if ext == "go"@ {
        Some("go"@)
    } else if ext == "rb"@ {
        Some("ruby"@)
    } else if ext == "php"@ {
        Some("php"@)
    } else if ext == "html"@ {
        Some("html"@)
    } else if ext == "css"@ {
        Some("css"@)
    } else if ext == "scss"@ {
        Some("scss"@)
    } else if ext == "sql"@ {
        Some("sql"@)
    } else if ext == "md"@ {
        Some("markdown"@)
    } else if ext == "json"@ {
        Some("json"@)
    } else if ext == "yml"@ || ext == "yaml"@ {
        Some("yaml"@)
    } else if ext == "toml"@ {
        Some("toml"@)
    } else if ext == "sh"@ || ext == "bash"@ {
        Some("bash"@)
    } else if ext == "lua"@ {
        Some("lua"@)
    } else if ext == "swift"@ {
        Some("swift"@)
    } else if ext == "kt"@ {
        Some("kotlin"@)
    } else if ext == "dart"@ {
        Some("dart"@)
    } else if ext == "vue"@ {
        Some("vue"@)
    } else if ext == "svelte"@ {
        Some("svelte"@)
    } else if ext == "elm"@ {
        Some("elm"@)
    } else if ext == "hs"@ {
        Some("haskell"@)
    } else if ext == "clj"@ {
        Some("clojure"@)
    } else if ext == "ex"@ {
        Some("elixir"@)
    } else if ext == "fs"@ {
        Some("fsharp"@)
    } else {
        None
    }
}

/// The language of the file at `path`, judged by its extension.
pub open spec fn language_of_path(path: Seq<char>) -> Option<Seq<char>> {
    match extension_of(path) {
        Some(ext) => language_of_extension(ext),
        None => None,
    }
}

/// A file's language is decided by its extension alone: files with the same
/// extension, in whatever directory, have the same language.
pub proof fn law_language_depends_only_on_extension(p: Seq<char>, q: Seq<char>)
    requires
        extension_of(p) == extension_of(q),
    ensures
        language_of_path(p) == language_of_path(q),
{
}

/// The languages that the extension table names, each once.
pub open spec fn known_languages() -> Seq<Seq<char>> {
    seq!["rust"@, "javascript"@, "typescript"@, "react"@, "python"@, "java"@, "c"@, "cpp"@, "go"@, "ruby"@, "php"@, "html"@, "css"@, "scss"@, "sql"@, "markdown"@, "json"@, "yaml"@, "toml"@, "bash"@, "lua"@, "swift"@, "kotlin"@, "dart"@, "vue"@, "svelte"@, "elm"@, "haskell"@, "clojure"@, "elixir"@, "fsharp"@]
}

/// The extension table names 31 distinct languages, and for each of them
/// some file path is detected as being in it: the library detects more than
/// 30 programming languages.
pub proof fn law_more_than_thirty_languages()
    ensures
        known_languages().len() == 31,
        known_languages().no_duplicates(),
        forall|i: int|
            0 <= i < known_languages().len() ==> exists|path: Seq<char>|
                language_of_path(path) == Some(#[trigger] known_languages()[i]),
{
    reveal_strlit("bash");
    reveal_strlit("c");
    reveal_strlit("cc");
    reveal_strlit("clj");
    reveal_strlit("clojure");
    reveal_strlit("cpp");
    reveal_strlit("css");
    reveal_strlit("dart");
    reveal_strlit("elixir");
    reveal_strlit("elm");
    reveal_strlit("ex");
    reveal_strlit("fs");
    reveal_strlit("fsharp");
    reveal_strlit("go");
    reveal_strlit("h");
    reveal_strlit("haskell");
    reveal_strlit("hpp");
    reveal_strlit("hs");
    reveal_strlit("html");
    reveal_strlit("java");
    reveal_strlit("javascript");
    reveal_strlit("js");
    reveal_strlit("json");
    reveal_strlit("jsx");
    reveal_strlit("kotlin");
    reveal_strlit("kt");
    reveal_strlit("lua");
    reveal_strlit("markdown");
    reveal_strlit("md");
    reveal_strlit("php");
    reveal_strlit("py");
    reveal_strlit("python");
    reveal_strlit("rb");
    reveal_strlit("react");
    reveal_strlit("rs");
    reveal_strlit("ruby");
    reveal_strlit("rust");
    reveal_strlit("scss");
    reveal_strlit("sh");
    reveal_strlit("sql");
    reveal_strlit("svelte");
    reveal_strlit("swift");
    reveal_strlit("toml");
    reveal_strlit("ts");
    reveal_strlit("tsx");
    reveal_strlit("typescript");
    reveal_strlit("vue");
    reveal_strlit("yaml");
    reveal_strlit("yml");
    assert("bash"@.len() == 4 && "bash"@[0] == 'b' && "bash"@[1] == 'a' && "bash"@[2] == 's' && "bash"@[3] == 'h');
    assert("c"@.len() == 1 && "c"@[0] == 'c');
    assert("cc"@.len() == 2 && "cc"@[0] == 'c' && "cc"@[1] == 'c');
    assert("clj"@.len() == 3 && "clj"@[0] == 'c' && "clj"@[1] == 'l' && "clj"@[2] == 'j');
    assert("clojure"@.len() == 7 && "clojure"@[0] == 'c' && "clojure"@[1] == 'l' && "clojure"@[2] == 'o' && "clojure"@[3] == 'j' && "clojure"@[4] == 'u' && "clojure"@[5] == 'r' && "clojure"@[6] == 'e');
    assert("cpp"@.len() == 3 && "cpp"@[0] == 'c' && "cpp"@[1] == 'p' && "cpp"@[2] == 'p');
    assert("css"@.len() == 3 && "css"@[0] == 'c' && "css"@[1] == 's' && "css"@[2] == 's');
    assert("dart"@.len() == 4 && "dart"@[0] == 'd' && "dart"@[1] == 'a' && "dart"@[2] == 'r' && "dart"@[3] == 't');
    assert("elixir"@.len() == 6 && "elixir"@[0] == 'e' && "elixir"@[1] == 'l' && "elixir"@[2] == 'i' && "elixir"@[3] == 'x' && "elixir"@[4] == 'i' && "elixir"@[5] == 'r');
    assert("elm"@.len() == 3 && "elm"@[0] == 'e' && "elm"@[1] == 'l' && "elm"@[2] == 'm');
    assert("ex"@.len() == 2 && "ex"@[0] == 'e' && "ex"@[1] == 'x');
    assert("fs"@.len() == 2 && "fs"@[0] == 'f' && "fs"@[1] == 's');
    assert("fsharp"@.len() == 6 && "fsharp"@[0] == 'f' && "fsharp"@[1] == 's' && "fsharp"@[2] == 'h' && "fsharp"@[3] == 'a' && "fsharp"@[4] == 'r' && "fsharp"@[5] == 'p');
    assert("go"@.len() == 2 && "go"@[0] == 'g' && "go"@[1] == 'o');
    assert("h"@.len() == 1 && "h"@[0] == 'h');
    assert("haskell"@.len() == 7 && "haskell"@[0] == 'h' && "haskell"@[1] == 'a' && "haskell"@[2] == 's' && "haskell"@[3] == 'k' && "haskell"@[4] == 'e' && "haskell"@[5] == 'l' && "haskell"@[6] == 'l');
    assert("hpp"@.len() == 3 && "hpp"@[0] == 'h' && "hpp"@[1] == 'p' && "hpp"@[2] == 'p');
    assert("hs"@.len() == 2 && "hs"@[0] == 'h' && "hs"@[1] == 's');
    assert("html"@.len() == 4 && "html"@[0] == 'h' && "html"@[1] == 't' && "html"@[2] == 'm' && "html"@[3] == 'l');
    assert("java"@.len() == 4 && "java"@[0] == 'j' && "java"@[1] == 'a' && "java"@[2] == 'v' && "java"@[3] == 'a');
    assert("javascript"@.len() == 10 && "javascript"@[0] == 'j' && "javascript"@[1] == 'a' && "javascript"@[2] == 'v' && "javascript"@[3] == 'a' && "javascript"@[4] == 's' && "javascript"@[5] == 'c' && "javascript"@[6] == 'r' && "javascript"@[7] == 'i' && "javascript"@[8] == 'p' && "javascript"@[9] == 't');
    assert("js"@.len() == 2 && "js"@[0] == 'j' && "js"@[1] == 's');
    assert("json"@.len() == 4 && "json"@[0] == 'j' && "json"@[1] == 's' && "json"@[2] == 'o' && "json"@[3] == 'n');
    assert("jsx"@.len() == 3 && "jsx"@[0] == 'j' && "jsx"@[1] == 's' && "jsx"@[2] == 'x');
    assert("kotlin"@.len() == 6 && "kotlin"@[0] == 'k' && "kotlin"@[1] == 'o' && "kotlin"@[2] == 't' && "kotlin"@[3] == 'l' && "kotlin"@[4] == 'i' && "kotlin"@[5] == 'n');
    assert("kt"@.len() == 2 && "kt"@[0] == 'k' && "kt"@[1] == 't');
    assert("lua"@.len() == 3 && "lua"@[0] == 'l' && "lua"@[1] == 'u' && "lua"@[2] == 'a');
    assert("markdown"@.len() == 8 && "markdown"@[0] == 'm' && "markdown"@[1] == 'a' && "markdown"@[2] == 'r' && "markdown"@[3] == 'k' && "markdown"@[4] == 'd' && "markdown"@[5] == 'o' && "markdown"@[6] == 'w' && "markdown"@[7] == 'n');
    assert("md"@.len() == 2 && "md"@[0] == 'm' && "md"@[1] == 'd');
    assert("php"@.len() == 3 && "php"@[0] == 'p' && "php"@[1] == 'h' && "php"@[2] == 'p');
    assert("py"@.len() == 2 && "py"@[0] == 'p' && "py"@[1] == 'y');
    assert("python"@.len() == 6 && "python"@[0] == 'p' && "python"@[1] == 'y' && "python"@[2] == 't' && "python"@[3] == 'h' && "python"@[4] == 'o' && "python"@[5] == 'n');
    assert("rb"@.len() == 2 && "rb"@[0] == 'r' && "rb"@[1] == 'b');
    assert("react"@.len() == 5 && "react"@[0] == 'r' && "react"@[1] == 'e' && "react"@[2] == 'a' && "react"@[3] == 'c' && "react"@[4] == 't');
    assert("rs"@.len() == 2 && "rs"@[0] == 'r' && "rs"@[1] == 's');
    assert("ruby"@.len() == 4 && "ruby"@[0] == 'r' && "ruby"@[1] == 'u' && "ruby"@[2] == 'b' && "ruby"@[3] == 'y');
    assert("rust"@.len() == 4 && "rust"@[0] == 'r' && "rust"@[1] == 'u' && "rust"@[2] == 's' && "rust"@[3] == 't');
    assert("scss"@.len() == 4 && "scss"@[0] == 's' && "scss"@[1] == 'c' && "scss"@[2] == 's' && "scss"@[3] == 's');
    assert("sh"@.len() == 2 && "sh"@[0] == 's' && "sh"@[1] == 'h');
    assert("sql"@.len() == 3 && "sql"@[0] == 's' && "sql"@[1] == 'q' && "sql"@[2] == 'l');
    assert("svelte"@.len() == 6 && "svelte"@[0] == 's' && "svelte"@[1] == 'v' && "svelte"@[2] == 'e' && "svelte"@[3] == 'l' && "svelte"@[4] == 't' && "svelte"@[5] == 'e');
    assert("swift"@.len() == 5 && "swift"@[0] == 's' && "swift"@[1] == 'w' && "swift"@[2] == 'i' && "swift"@[3] == 'f' && "swift"@[4] == 't');
    assert("toml"@.len() == 4 && "toml"@[0] == 't' && "toml"@[1] == 'o' && "toml"@[2] == 'm' && "toml"@[3] == 'l');
    assert("ts"@.len() == 2 && "ts"@[0] == 't' && "ts"@[1] == 's');
    assert("tsx"@.len() == 3 && "tsx"@[0] == 't' && "tsx"@[1] == 's' && "tsx"@[2] == 'x');
    assert("typescript"@.len() == 10 && "typescript"@[0] == 't' && "typescript"@[1] == 'y' && "typescript"@[2] == 'p' && "typescript"@[3] == 'e' && "typescript"@[4] == 's' && "typescript"@[5] == 'c' && "typescript"@[6] == 'r' && "typescript"@[7] == 'i' && "typescript"@[8] == 'p' && "typescript"@[9] == 't');
    assert("vue"@.len() == 3 && "vue"@[0] == 'v' && "vue"@[1] == 'u' && "vue"@[2] == 'e');
    assert("yaml"@.len() == 4 && "yaml"@[0] == 'y' && "yaml"@[1] == 'a' && "yaml"@[2] == 'm' && "yaml"@[3] == 'l');
    assert("yml"@.len() == 3 && "yml"@[0] == 'y' && "yml"@[1] == 'm' && "yml"@[2] == 'l');
    let names = known_languages();
    lemma_extension_of_dotted_name(seq!['f'], "rs"@);
    assert(language_of_path(seq!['f'] + seq!['.'] + "rs"@) == Some("rust"@));
    lemma_extension_of_dotted_name(seq!['f'], "js"@);
    assert(language_of_path(seq!['f'] + seq!['.'] + "js"@) == Some("javascript"@));
    lemma_extension_of_dotted_name(seq!['f'], "ts"@);
    assert(language_of_path(seq!['f'] + seq!['.'] + "ts"@) == Some("typescript"@));
    lemma_extension_of_dotted_name(seq!['f'], "jsx"@);
    assert(language_of_path(seq!['f'] + seq!['.'] + "jsx"@) == Some("react"@));
    lemma_extension_of_dotted_name(seq!['f'], "py"@);
    assert(language_of_path(seq!['f'] + seq!['.'] + "py"@) == Some("python"@));
    lemma_extension_of_dotted_name(seq!['f'], "java"@);
    assert(language_of_path(seq!['f'] + seq!['.'] + "java"@) == Some("java"@));
    lemma_extension_of_dotted_name(seq!['f'], "c"@);
    assert(language_of_path(seq!['f'] + seq!['.'] + "c"@) == Some("c"@));
    lemma_extension_of_dotted_name(seq!['f'], "cpp"@);
    assert(language_of_path(seq!['f'] + seq!['.'] + "cpp"@) == Some("cpp"@));
    lemma_extension_of_dotted_name(seq!['f'], "go"@);
    assert(language_of_path(seq!['f'] + seq!['.'] + "go"@) == Some("go"@));
    lemma_extension_of_dotted_name(seq!['f'], "rb"@);
    assert(language_of_path(seq!['f'] + seq!['.'] + "rb"@) == Some("ruby"@));
    lemma_extension_of_dotted_name(seq!['f'], "php"@);
    assert(language_of_path(seq!['f'] + seq!['.'] + "php"@) == Some("php"@));
    lemma_extension_of_dotted_name(seq!['f'], "html"@);
    assert(language_of_path(seq!['f'] + seq!['.'] + "html"@) == Some("html"@));
    lemma_extension_of_dotted_name(seq!['f'], "css"@);
    assert(language_of_path(seq!['f'] + seq!['.'] + "css"@) == Some("css"@));
    lemma_extension_of_dotted_name(seq!['f'], "scss"@);
    assert(language_of_path(seq!['f'] + seq!['.'] + "scss"@) == Some("scss"@));
    lemma_extension_of_dotted_name(seq!['f'], "sql"@);
    assert(language_of_path(seq!['f'] + seq!['.'] + "sql"@) == Some("sql"@));
    lemma_extension_of_dotted_name(seq!['f'], "md"@);
    assert(language_of_path(seq!['f'] + seq!['.'] + "md"@) == Some("markdown"@));
    lemma_extension_of_dotted_name(seq!['f'], "json"@);
    assert(language_of_path(seq!['f'] + seq!['.'] + "json"@) == Some("json"@));
    lemma_extension_of_dotted_name(seq!['f'], "yml"@);
    assert(language_of_path(seq!['f'] + seq!['.'] + "yml"@) == Some("yaml"@));
    lemma_extension_of_dotted_name(seq!['f'], "toml"@);
    assert(language_of_path(seq!['f'] + seq!['.'] + "toml"@) == Some("toml"@));
    lemma_extension_of_dotted_name(seq!['f'], "sh"@);
    assert(language_of_path(seq!['f'] + seq!['.'] + "sh"@) == Some("bash"@));
    lemma_extension_of_dotted_name(seq!['f'], "lua"@);
    assert(language_of_path(seq!['f'] + seq!['.'] + "lua"@) == Some("lua"@));
    lemma_extension_of_dotted_name(seq!['f'], "swift"@);
    assert(language_of_path(seq!['f'] + seq!['.'] + "swift"@) == Some("swift"@));
    lemma_extension_of_dotted_name(seq!['f'], "kt"@);
    assert(language_of_path(seq!['f'] + seq!['.'] + "kt"@) == Some("kotlin"@));
    lemma_extension_of_dotted_name(seq!['f'], "dart"@);
    assert(language_of_path(seq!['f'] + seq!['.'] + "dart"@) == Some("dart"@));
    lemma_extension_of_dotted_name(seq!['f'], "vue"@);
    assert(language_of_path(seq!['f'] + seq!['.'] + "vue"@) == Some("vue"@));
    lemma_extension_of_dotted_name(seq!['f'], "svelte"@);
    assert(language_of_path(seq!['f'] + seq!['.'] + "svelte"@) == Some("svelte"@));
    lemma_extension_of_dotted_name(seq!['f'], "elm"@);
    assert(language_of_path(seq!['f'] + seq!['.'] + "elm"@) == Some("elm"@));
    lemma_extension_of_dotted_name(seq!['f'], "hs"@);
    assert(language_of_path(seq!['f'] + seq!['.'] + "hs"@) == Some("haskell"@));
    lemma_extension_of_dotted_name(seq!['f'], "clj"@);
    assert(language_of_path(seq!['f'] + seq!['.'] + "clj"@) == Some("clojure"@));
    lemma_extension_of_dotted_name(seq!['f'], "ex"@);
    assert(language_of_path(seq!['f'] + seq!['.'] + "ex"@) == Some("elixir"@));
    lemma_extension_of_dotted_name(seq!['f'], "fs"@);
    assert(language_of_path(seq!['f'] + seq!['.'] + "fs"@) == Some("fsharp"@));
    assert forall|i: int, j: int| 0 <= i < names.len() && 0 <= j < names.len() && i != j implies names[i] != names[j] by {
        if names[i] == names[j] {
            assert(names[i].len() == names[j].len());
            assert(names[i][0] == names[j][0]);
        }
    }
}

/// Whether the characters `from..to` of `cs` spell `lit`.
pub fn range_equals(cs: &Vec<char>, from: usize, to: usize, lit: &str) -> (r: bool)
    requires
        from <= to <= cs@.len(),
    ensures
        r == (cs@.subrange(from as int, to as int) == lit@),
{
    let n = lit.unicode_len();
    if to - from != n {
        return false;
    }
    let mut i: usize = 0;
    while i < n
        invariant
            to - from == n == lit@.len(),
            from <= to <= cs@.len(),
            i <= n,
            forall|k: int| 0 <= k < i ==> cs@[from + k] == lit@[k],
        decreases n - i,
    {
        if cs[from + i] != lit.get_char(i) {
            assert(cs@.subrange(from as int, to as int)[i as int] != lit@[i as int]);
            return false;
        }
        i = i + 1;
    }
    assert(cs@.subrange(from as int, to as int) =~= lit@);
    true
}

fn language_for_range(cs: &Vec<char>, from: usize, to: usize) -> (r: Option<&'static str>)
    requires
        from <= to <= cs@.len(),
    ensures
        match r {
            Some(l) => language_of_extension(cs@.subrange(from as int, to as int)) == Some(l@),
            None => language_of_extension(cs@.subrange(from as int, to as int)) is None,
        },
{
    let ghost ext = cs@.subrange(from as int, to as int);
    if range_equals(cs, from, to, "rs") {
        Some("rust")
    } else if range_equals(cs, from, to, "js") {
        Some("javascript")
    } else if range_equals(cs, from, to, "ts") {
        Some("typescript")
    } else if range_equals(cs, from, to, "jsx") || range_equals(cs, from, to, "tsx") {
        Some("react")
    } else if range_equals(cs, from, to, "py") {
        Some("python")
    } else if range_equals(cs, from, to, "java") {
        Some("java")
    } else if range_equals(cs, from, to, "c") {
        Some("c")
    } else if range_equals(cs, from, to, "cpp") || range_equals(cs, from, to, "cc") {
        Some("cpp")
    } else if range_equals(cs, from, to, "h") || range_equals(cs, from, to, "hpp") {
        Some("cpp")
    } else if range_equals(cs, from, to, "go") {
        Some("go")
    } else if range_equals(cs, from, to, "rb") {
        Some("ruby")
    } else if range_equals(cs, from, to, "php") {
        Some("php")
    } else if range_equals(cs, from, to, "html") {
        Some("html")
    } else if range_equals(cs, from, to, "css") {
        Some("css")
    } else if range_equals(cs, from, to, "scss") {
        Some("scss")
    } else if range_equals(cs, from, to, "sql") {
        Some("sql")
    } else if range_equals(cs, from, to, "md") {
        Some("markdown")
    } else if range_equals(cs, from, to, "json") {
        Some("json")
    } else if range_equals(cs, from, to, "yml") || range_equals(cs, from, to, "yaml") {
        Some("yaml")
    } else if range_equals(cs, from, to, "toml") {
        Some("toml")
    } else if range_equals(cs, from, to, "sh") || range_equals(cs, from, to, "bash") {
        Some("bash")
    } else if range_equals(cs, from, to, "lua") {
        Some("lua")
    } else if range_equals(cs, from, to, "swift") {
        Some("swift")
    } else if range_equals(cs, from, to, "kt") {
        Some("kotlin")
    } else if range_equals(cs, from, to, "dart") {
        Some("dart")
    } else if range_equals(cs, from, to, "vue") {
        Some("vue")
    } else if range_equals(cs, from, to, "svelte") {
        Some("svelte")
    } else if range_equals(cs, from, to, "elm") {
        Some("elm")
    } else if range_equals(cs, from, to, "hs") {
        Some("haskell")
    } else if range_equals(cs, from, to, "clj") {
        Some("clojure")
    } else if range_equals(cs, from, to, "ex") {
        Some("elixir")
    } else if range_equals(cs, from, to, "fs") {
        Some("fsharp")
    } else {
        None
    }
}

/// The programming language of the file at `path`, judged by its extension,
/// or `None` where the extension is missing or not one this library knows.
pub fn detect_language(path: &str) -> (r: Option<&'static str>)
    ensures
        match r {
            Some(l) => language_of_path(path@) == Some(l@),
            None => language_of_path(path@) is None,
        },
{
    let cs = char_vec(path);
    match extension_range(&cs) {
        Some((a, b)) => language_for_range(&cs, a, b),
        None => None,
    }
}


// ---------------------------------------------------------------------------
// The languages of a repository
// ---------------------------------------------------------------------------

/// `a` comes before `b` in lexicographic order of their characters (by code
/// point, which is the order of `String`'s `Ord`).
pub open spec fn lex_less(a: Seq<char>, b: Seq<char>) -> bool
    decreases a.len(),
{
    if a.len() == 0 {
        b.len() > 0
    } else if b.len() == 0 {
        false
    } else if a[0] != b[0] {
        a[0] < b[0]
    } else {
        lex_less(a.drop_first(), b.drop_first())
    }
}

/// Lexicographic order is a strict total order.
pub proof fn lemma_lex_total(a: Seq<char>, b: Seq<char>)
    ensures
        !lex_less(a, a),
        lex_less(a, b) ==> !lex_less(b, a),
        a != b ==> lex_less(a, b) || lex_less(b, a),
    decreases a.len(),
{
    if a.len() > 0 && b.len() > 0 && a[0] == b[0] {
        lemma_lex_total(a.drop_first(), b.drop_first());
        if a.drop_first() == b.drop_first() {
            assert(a =~= seq![a[0]] + a.drop_first());
            assert(b =~= seq![b[0]] + b.drop_first());
        }
    }
    if a.len() > 0 {
        lemma_lex_total(a.drop_first(), a.drop_first());
    }
    if a.len() == 0 && b.len() == 0 {
        assert(a =~= b);
    }
}

/// Lexicographic order is transitive.
pub proof fn lemma_lex_transitive(a: Seq<char>, b: Seq<char>, c: Seq<char>)
    requires
        lex_less(a, b),
        lex_less(b, c),
    ensures
        lex_less(a, c),
    decreases a.len(),
{
    if a.len() > 0 && b.len() > 0 && c.len() > 0 && a[0] == b[0] && b[0] == c[0] {
        lemma_lex_transitive(a.drop_first(), b.drop_first(), c.drop_first());
    }
}

/// Each text comes strictly before the next: the list is sorted and holds no
/// text twice.
pub open spec fn strictly_sorted(s: Seq<Seq<char>>) -> bool {
    forall|i: int, j: int| 0 <= i < j < s.len() ==> lex_less(#[trigger] s[i], #[trigger] s[j])
}

/// A strictly sorted list is fixed by the texts it holds: the language list
/// of a repository depends only on which languages occur in it, not on the
/// order in which the walk of its tree met them.
pub proof fn law_sorted_list_is_fixed_by_its_texts(a: Seq<Seq<char>>, b: Seq<Seq<char>>)
    requires
        strictly_sorted(a),
        strictly_sorted(b),
        forall|t: Seq<char>| a.contains(t) <==> b.contains(t),
    ensures
        a == b,
    decreases a.len(),
{
    if a.len() == 0 {
        if b.len() > 0 {
            assert(b.contains(b[0]));
        }
        assert(a =~= b);
        return;
    }
    assert(a.contains(a[0]));
    let j = choose|j: int| 0 <= j < b.len() && b[j] == a[0];
    assert(b.contains(b[0]));
    let k = choose|k: int| 0 <= k < a.len() && a[k] == b[0];
    if j > 0 {
        assert(lex_less(b[0], b[j]));
        if k > 0 {
            assert(lex_less(a[0], a[k]));
            lemma_lex_transitive(a[0], b[0], a[0]);
        }
        lemma_lex_total(a[0], b[0]);
    }
    assert(b[0] == a[0]);
    let a1 = a.drop_first();
    let b1 = b.drop_first();
    assert forall|x: int, y: int| 0 <= x < y < a1.len() implies lex_less(
        #[trigger] a1[x],
        #[trigger] a1[y],
    ) by {
        assert(a1[x] == a[x + 1] && a1[y] == a[y + 1]);
    }
    assert forall|x: int, y: int| 0 <= x < y < b1.len() implies lex_less(
        #[trigger] b1[x],
        #[trigger] b1[y],
    ) by {
        assert(b1[x] == b[x + 1] && b1[y] == b[y + 1]);
    }
    assert forall|t: Seq<char>| a1.contains(t) <==> b1.contains(t) by {
        if a1.contains(t) {
            let x = choose|x: int| 0 <= x < a1.len() && a1[x] == t;
            assert(a.contains(a[x + 1]));
            assert(lex_less(a[0], a[x + 1]));
            lemma_lex_total(a[0], t);
            let y = choose|y: int| 0 <= y < b.len() && b[y] == t;
            assert(y != 0);
            assert(b1[y - 1] == t);
        }
        if b1.contains(t) {
            let x = choose|x: int| 0 <= x < b1.len() && b1[x] == t;
            assert(b.contains(b[x + 1]));
            assert(lex_less(b[0], b[x + 1]));
            lemma_lex_total(b[0], t);
            let y = choose|y: int| 0 <= y < a.len() && a[y] == t;
            assert(y != 0);
            assert(a1[y - 1] == t);
        }
    }
    law_sorted_list_is_fixed_by_its_texts(a1, b1);
    assert(a =~= seq![a[0]] + a1);
    assert(b =~= seq![b[0]] + b1);
}

/// Whether `a` comes before `b` in lexicographic order.
pub fn text_less(a: &str, b: &str) -> (r: bool)
    ensures
        r == lex_less(a@, b@),
{
    let x = char_vec(a);
    let y = char_vec(b);
    let mut i: usize = 0;
    assert(a@.skip(0) =~= a@);
    assert(b@.skip(0) =~= b@);
    while i < x.len() && i < y.len() && x[i] == y[i]
        invariant
            x@ == a@,
            y@ == b@,
            i <= x@.len(),
            i <= y@.len(),
            lex_less(a@, b@) == lex_less(a@.skip(i as int), b@.skip(i as int)),
        decreases x@.len() - i,
    {
        assert(a@.skip(i as int).drop_first() =~= a@.skip(i + 1));
        assert(b@.skip(i as int).drop_first() =~= b@.skip(i + 1));
        i = i + 1;
    }
    if i == x.len() {
        i < y.len()
    } else if i == y.len() {
        false
    } else {
        assert(a@.skip(i as int)[0] == x@[i as int]);
        assert(b@.skip(i as int)[0] == y@[i as int]);
        x[i] < y[i]
    }
}

/// Adds `item` to a strictly sorted list of texts, keeping it strictly sorted;
/// a text it already holds is not added again.
pub fn insert_sorted(list: &mut Vec<String>, item: String)
    requires
        strictly_sorted(views(old(list)@)),
    ensures
        strictly_sorted(views(final(list)@)),
        forall|t: Seq<char>|
            #![trigger views(final(list)@).contains(t)]
            views(final(list)@).contains(t) <==> (views(old(list)@).contains(t) || t == item@),
{
    let n = list.len();
    let ghost old_views = views(list@);
    let mut i: usize = 0;
    while i < n
        invariant
            n == list@.len(),
            old_views == views(list@),
            i <= n,
            forall|k: int| 0 <= k < i ==> lex_less(#[trigger] old_views[k], item@),
        ensures
            i <= n,
            old_views == views(list@),
            forall|k: int| 0 <= k < i ==> lex_less(#[trigger] old_views[k], item@),
            i == n || !lex_less(old_views[i as int], item@),
        decreases n - i,
    {
        if !text_less(list[i].as_str(), item.as_str()) {
            break;
        }
        i = i + 1;
    }
    if i < n && list[i] == item {
        assert(old_views[i as int] == item@);
        assert(views(list@) == old_views);
        assert forall|t: Seq<char>| views(list@).contains(t) <==> (old_views.contains(t) || t
            == item@) by {
            if t == item@ {
                assert(old_views[i as int] == t);
            }
        }
        return;
    }
    proof {
        if i < n {
            lemma_lex_total(old_views[i as int], item@);
        }
    }
    list.insert(i, item);
    let ghost nv = views(list@);
    assert(nv =~= old_views.insert(i as int, item@));
    assert forall|a: int, b: int| 0 <= a < b < nv.len() implies lex_less(
        #[trigger] nv[a],
        #[trigger] nv[b],
    ) by {
        if b < i {
        } else if a < i && b == i {
        } else if a < i && b > i {
            assert(nv[b] == old_views[b - 1]);
            assert(lex_less(old_views[a], old_views[b - 1]));
        } else if a == i {
            assert(nv[b] == old_views[b - 1]);
            if b - 1 > i {
                assert(lex_less(old_views[i as int], old_views[b - 1]));
                lemma_lex_transitive(item@, old_views[i as int], old_views[b - 1]);
            }
        } else {
            assert(nv[a] == old_views[a - 1]);
            assert(nv[b] == old_views[b - 1]);
        }
    }
    assert forall|t: Seq<char>| nv.contains(t) <==> (old_views.contains(t) || t == item@) by {
        if nv.contains(t) {
            let k = choose|k: int| 0 <= k < nv.len() && nv[k] == t;
            if k < i {
                assert(old_views[k] == t);
            } else if k > i {
                assert(old_views[k - 1] == t);
            }
        }
        if old_views.contains(t) {
            let k = choose|k: int| 0 <= k < old_views.len() && old_views[k] == t;
            if k < i {
                assert(nv[k] == t);
            } else {
                assert(nv[k + 1] == t);
            }
        }
        if t == item@ {
            assert(nv[i as int] == t);
        }
    }
}

/// An entry of a git tree, as the repository walk reports it: its file mode
/// bits and its name (`None` where the name is not valid UTF-8).
#[derive(Clone, Debug)]
pub struct TreeEntryInfo {
    pub mode: i32,
    pub name: Option<String>,
}

/// Whether a tree entry's mode shares a bit with git's blob mode `0o100644`:
/// every mode that git gives an entry other than a tree does (files
/// `0o100644` and `0o100755`, links `0o120000`, submodules `0o160000`); a
/// tree's `0o040000` does not.
pub open spec fn shares_blob_mode_bits(mode: i32) -> bool {
    mode & 0o100644i32 != 0
}

/// Whether a tree entry's mode shares a bit with git's tree mode `0o040000`.
pub open spec fn shares_tree_mode_bits(mode: i32) -> bool {
    mode & 0o040000i32 != 0
}

/// Whether an entry with this mode is one whose name's language is looked up:
/// any entry but a tree.
pub fn blob_entry(mode: i32) -> (r: bool)
    ensures
        r == shares_blob_mode_bits(mode),
{
    mode & blob_mode_bits() != 0
}

/// Whether an entry with this mode is a subtree that the repository walk enters.
pub fn tree_entry(mode: i32) -> (r: bool)
    ensures
        r == shares_tree_mode_bits(mode),
{
    mode & tree_mode_bits() != 0
}

/// The language that an entry of the repository's tree contributes, if any.
pub open spec fn entry_language(e: TreeEntryInfo) -> Option<Seq<char>> {
    if shares_blob_mode_bits(e.mode) {
        match e.name {
            Some(name) => language_of_path(name@),
            None => None,
        }
    } else {
        None
    }
}

/// The languages that the entries contribute, each once, in lexicographic
/// order: what collecting them in a set and sorting the set gives.
pub fn collect_languages(entries: &Vec<TreeEntryInfo>) -> (r: Vec<String>)
    ensures
        strictly_sorted(views(r@)),
        forall|t: Seq<char>|
            #![trigger views(r@).contains(t)]
            views(r@).contains(t) <==> exists|k: int|
                0 <= k < entries@.len() && entry_language(#[trigger] entries@[k]) == Some(t),
{
    let mut r: Vec<String> = Vec::new();
    let n = entries.len();
    let mut i: usize = 0;
    while i < n
        invariant
            n == entries@.len(),
            i <= n,
            strictly_sorted(views(r@)),
            forall|t: Seq<char>|
                #![trigger views(r@).contains(t)]
                views(r@).contains(t) <==> exists|k: int|
                    0 <= k < i && entry_language(#[trigger] entries@[k]) == Some(t),
        decreases n - i,
    {
        let e = &entries[i];
        let ghost before = views(r@);
        let mut found: Option<&'static str> = None;
        if blob_entry(e.mode) {
            match &e.name {
                Some(name) => {
                    found = detect_language(name.as_str());
                },
                None => {},
            }
        }
        assert(match found {
            Some(l) => entry_language(entries@[i as int]) == Some(l@),
            None => entry_language(entries@[i as int]) is None,
        });
        match found {
            Some(l) => {
                insert_sorted(&mut r, String::from_str(l));
            },
            None => {},
        }
        assert forall|t: Seq<char>|
            #![trigger views(r@).contains(t)]
            views(r@).contains(t) <==> exists|k: int|
                0 <= k < i + 1 && entry_language(#[trigger] entries@[k]) == Some(t) by {
            if views(r@).contains(t) {
                if before.contains(t) {
                    let k = choose|k: int|
                        0 <= k < i && entry_language(#[trigger] entries@[k]) == Some(t);
                    assert(0 <= k < i + 1 && entry_language(entries@[k]) == Some(t));
                } else {
                    assert(entry_language(entries@[i as int]) == Some(t));
                }
            }
            if exists|k: int| 0 <= k < i + 1 && entry_language(#[trigger] entries@[k]) == Some(t) {
                let k = choose|k: int|
                    0 <= k < i + 1 && entry_language(#[trigger] entries@[k]) == Some(t);
                if k < i {
                    assert(before.contains(t));
                }
            }
        }
        i = i + 1;
    }
    r
}

} // verus!
