//! Languages by file extension.

use vstd::prelude::*;

use crate::path::{extension, extension_of};
use crate::text::same_text;

verus! {

/// The language that an extension stands for.
pub open spec fn extension_language(ext: Seq<char>) -> Seq<char> {
    if ext == "rs"@ {
        "Rust"@
    } else if ext == "lua"@ {
        "Lua"@
    } else if ext == "toml"@ {
        "TOML"@
    } else if ext == "json"@ {
        "JSON"@
    } else if ext == "js"@ || ext == "mjs"@ || ext == "cjs"@ {
        "JavaScript"@
    } else if ext == "ts"@ || ext == "mts"@ || ext == "cts"@ {
        "TypeScript"@
    } else if ext == "py"@ {
        "Python"@
    } else if ext == "go"@ {
        "Go"@
    } else if ext == "c"@ || ext == "h"@ {
        "C"@
    } else if ext == "cpp"@ || ext == "cc"@ || ext == "cxx"@ || ext == "hpp"@ {
        "C++"@
    } else if ext == "java"@ {
        "Java"@
    } else if ext == "rb"@ {
        "Ruby"@
    } else if ext == "sh"@ || ext == "bash"@ || ext == "zsh"@ {
        "Shell"@
    } else if ext == "md"@ {
        "Markdown"@
    } else if ext == "yml"@ || ext == "yaml"@ {
        "YAML"@
    } else if ext == "html"@ || ext == "htm"@ {
        "HTML"@
    } else if ext == "css"@ {
        "CSS"@
    } else if ext == "clj"@ || ext == "cljs"@ {
        "Clojure"@
    } else {
        "Text"@
    }
}

/// The language of a file, by its extension.
pub open spec fn language_of(path: Seq<char>) -> Seq<char> {
    match extension_of(path) {
        Some(ext) => extension_language(ext),
        None => "Text"@,
    }
}

/// Maps an extension to the name that difftastic has for the language.
fn language_name(ext: &str) -> (r: &'static str)
    ensures
        r@ == extension_language(ext@),
{
    if same_text(ext, "rs") {
        "Rust"
    } else if same_text(ext, "lua") {
        "Lua"
    } else if same_text(ext, "toml") {
        "TOML"
    } else if same_text(ext, "json") {
        "JSON"
    } else if same_text(ext, "js") || same_text(ext, "mjs") || same_text(ext, "cjs") {
        "JavaScript"
    } else if same_text(ext, "ts") || same_text(ext, "mts") || same_text(ext, "cts") {
        "TypeScript"
    } else if same_text(ext, "py") {
        "Python"
    } else if same_text(ext, "go") {
        "Go"
    } else if same_text(ext, "c") || same_text(ext, "h") {
        "C"
    } else if same_text(ext, "cpp") || same_text(ext, "cc") || same_text(ext, "cxx") || same_text(
        ext,
        "hpp",
    ) {
        "C++"
    } else if same_text(ext, "java") {
        "Java"
    } else if same_text(ext, "rb") {
        "Ruby"
    } else if same_text(ext, "sh") || same_text(ext, "bash") || same_text(ext, "zsh") {
        "Shell"
    } else if same_text(ext, "md") {
        "Markdown"
    } else if same_text(ext, "yml") || same_text(ext, "yaml") {
        "YAML"
    } else if same_text(ext, "html") || same_text(ext, "htm") {
        "HTML"
    } else if same_text(ext, "css") {
        "CSS"
    } else if same_text(ext, "clj") || same_text(ext, "cljs") {
        "Clojure"
    } else {
        "Text"
    }
}

/// Maps a file's extension to the name that difftastic has for its language.
pub fn language_from_ext(path: &str) -> (r: String)
    ensures
        r@ == language_of(path@),
{
    match extension(path) {
        Some(ext) => language_name(ext.as_str()).to_owned(),
        None => "Text".to_owned(),
    }
}

/// The extensions that stand for a language.
pub open spec fn known_extensions() -> Seq<Seq<char>> {
    seq![
        "rs"@,
        "lua"@,
        "toml"@,
        "json"@,
        "js"@,
        "mjs"@,
        "cjs"@,
        "ts"@,
        "mts"@,
        "cts"@,
        "py"@,
        "go"@,
        "c"@,
        "h"@,
        "cpp"@,
        "cc"@,
        "cxx"@,
        "hpp"@,
        "java"@,
        "rb"@,
        "sh"@,
        "bash"@,
        "zsh"@,
        "md"@,
        "yml"@,
        "yaml"@,
        "html"@,
        "htm"@,
        "css"@,
        "clj"@,
        "cljs"@,
    ]
}

/// The language goes by the extension alone, and is `Text` for a path without one and for
/// every extension that stands for no language.
pub proof fn law_language_goes_by_the_extension(a: Seq<char>, b: Seq<char>)
    ensures
        extension_of(a) == extension_of(b) ==> language_of(a) == language_of(b),
        extension_of(a) is None ==> language_of(a) == "Text"@,
        extension_of(a) matches Some(ext) ==> {
            &&& language_of(a) == extension_language(ext)
            &&& !known_extensions().contains(ext) ==> language_of(a) == "Text"@
        },
{
    let known = known_extensions();
    if let Some(ext) = extension_of(a) {
        if !known.contains(ext) {
            assert(known.len() == 31);
            assert forall|i: int| 0 <= i < 31 implies ext != #[trigger] known[i] by {
                if ext == known[i] {
                    assert(known.contains(known[i]));
                }
            }
            assert(ext != known[0] && ext != known[1] && ext != known[2] && ext != known[3]);
            assert(ext != known[4] && ext != known[5] && ext != known[6] && ext != known[7]);
            assert(ext != known[8] && ext != known[9] && ext != known[10] && ext != known[11]);
            assert(ext != known[12] && ext != known[13] && ext != known[14] && ext != known[15]);
            assert(ext != known[16] && ext != known[17] && ext != known[18] && ext != known[19]);
            assert(ext != known[20] && ext != known[21] && ext != known[22] && ext != known[23]);
            assert(ext != known[24] && ext != known[25] && ext != known[26] && ext != known[27]);
            assert(ext != known[28] && ext != known[29] && ext != known[30]);
        }
    }
}

/// Each extension stands for the one language that files with it are written in.
pub proof fn law_extensions_stand_for_their_languages(path: Seq<char>)
    ensures
        extension_of(path) == Some("rs"@) ==> language_of(path) == "Rust"@,
        extension_of(path) == Some("lua"@) ==> language_of(path) == "Lua"@,
        extension_of(path) == Some("toml"@) ==> language_of(path) == "TOML"@,
        extension_of(path) == Some("json"@) ==> language_of(path) == "JSON"@,
        extension_of(path) == Some("js"@) ==> language_of(path) == "JavaScript"@,
        extension_of(path) == Some("mjs"@) ==> language_of(path) == "JavaScript"@,
        extension_of(path) == Some("cjs"@) ==> language_of(path) == "JavaScript"@,
        extension_of(path) == Some("ts"@) ==> language_of(path) == "TypeScript"@,
        extension_of(path) == Some("mts"@) ==> language_of(path) == "TypeScript"@,
        extension_of(path) == Some("cts"@) ==> language_of(path) == "TypeScript"@,
        extension_of(path) == Some("py"@) ==> language_of(path) == "Python"@,
        extension_of(path) == Some("go"@) ==> language_of(path) == "Go"@,
        extension_of(path) == Some("c"@) ==> language_of(path) == "C"@,
        extension_of(path) == Some("h"@) ==> language_of(path) == "C"@,
        extension_of(path) == Some("cpp"@) ==> language_of(path) == "C++"@,
        extension_of(path) == Some("cc"@) ==> language_of(path) == "C++"@,
        extension_of(path) == Some("cxx"@) ==> language_of(path) == "C++"@,
        extension_of(path) == Some("hpp"@) ==> language_of(path) == "C++"@,
        extension_of(path) == Some("java"@) ==> language_of(path) == "Java"@,
        extension_of(path) == Some("rb"@) ==> language_of(path) == "Ruby"@,
        extension_of(path) == Some("sh"@) ==> language_of(path) == "Shell"@,
        extension_of(path) == Some("bash"@) ==> language_of(path) == "Shell"@,
        extension_of(path) == Some("zsh"@) ==> language_of(path) == "Shell"@,
        extension_of(path) == Some("md"@) ==> language_of(path) == "Markdown"@,
        extension_of(path) == Some("yml"@) ==> language_of(path) == "YAML"@,
        extension_of(path) == Some("yaml"@) ==> language_of(path) == "YAML"@,
        extension_of(path) == Some("html"@) ==> language_of(path) == "HTML"@,
        extension_of(path) == Some("htm"@) ==> language_of(path) == "HTML"@,
        extension_of(path) == Some("css"@) ==> language_of(path) == "CSS"@,
        extension_of(path) == Some("clj"@) ==> language_of(path) == "Clojure"@,
        extension_of(path) == Some("cljs"@) ==> language_of(path) == "Clojure"@,
{
    reveal_strlit("rs");
    reveal_strlit("lua");
    reveal_strlit("toml");
    reveal_strlit("json");
    reveal_strlit("js");
    reveal_strlit("mjs");
    reveal_strlit("cjs");
    reveal_strlit("ts");
    reveal_strlit("mts");
    reveal_strlit("cts");
    reveal_strlit("py");
    reveal_strlit("go");
    reveal_strlit("c");
    reveal_strlit("h");
    reveal_strlit("cpp");
    reveal_strlit("cc");
    reveal_strlit("cxx");
    reveal_strlit("hpp");
    reveal_strlit("java");
    reveal_strlit("rb");
    reveal_strlit("sh");
    reveal_strlit("bash");
    reveal_strlit("zsh");
    reveal_strlit("md");
    reveal_strlit("yml");
    reveal_strlit("yaml");
    reveal_strlit("html");
    reveal_strlit("htm");
    reveal_strlit("css");
    reveal_strlit("clj");
    reveal_strlit("cljs");
    assert("rs"@ =~= seq!['r', 's']);
    assert("lua"@ =~= seq!['l', 'u', 'a']);
    assert("toml"@ =~= seq!['t', 'o', 'm', 'l']);
    assert("json"@ =~= seq!['j', 's', 'o', 'n']);
    assert("js"@ =~= seq!['j', 's']);
    assert("mjs"@ =~= seq!['m', 'j', 's']);
    assert("cjs"@ =~= seq!['c', 'j', 's']);
    assert("ts"@ =~= seq!['t', 's']);
    assert("mts"@ =~= seq!['m', 't', 's']);
    assert("cts"@ =~= seq!['c', 't', 's']);
    assert("py"@ =~= seq!['p', 'y']);
    assert("go"@ =~= seq!['g', 'o']);
    assert("c"@ =~= seq!['c']);
    assert("h"@ =~= seq!['h']);
    assert("cpp"@ =~= seq!['c', 'p', 'p']);
    assert("cc"@ =~= seq!['c', 'c']);
    assert("cxx"@ =~= seq!['c', 'x', 'x']);
    assert("hpp"@ =~= seq!['h', 'p', 'p']);
    assert("java"@ =~= seq!['j', 'a', 'v', 'a']);
    assert("rb"@ =~= seq!['r', 'b']);
    assert("sh"@ =~= seq!['s', 'h']);
    assert("bash"@ =~= seq!['b', 'a', 's', 'h']);
    assert("zsh"@ =~= seq!['z', 's', 'h']);
    assert("md"@ =~= seq!['m', 'd']);
    assert("yml"@ =~= seq!['y', 'm', 'l']);
    assert("yaml"@ =~= seq!['y', 'a', 'm', 'l']);
    assert("html"@ =~= seq!['h', 't', 'm', 'l']);
    assert("htm"@ =~= seq!['h', 't', 'm']);
    assert("css"@ =~= seq!['c', 's', 's']);
    assert("clj"@ =~= seq!['c', 'l', 'j']);
    assert("cljs"@ =~= seq!['c', 'l', 'j', 's']);
}

} // verus!
