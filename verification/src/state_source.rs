//! The source of the state library: a crate that pulls in the dependencies
//! of the state structs, declares each state struct's module and gathers one
//! value of each struct into the `Data` type.

use vstd::prelude::*;

use crate::toml_text::{
    error_report, increasing, located_errors, outline_ordered, outline_view, parse, toml_outline,
    toml_syntax_errors, TopLevelEntry,
};

verus! {

/// The character that `char::to_uppercase` yields first for `c`.
pub uninterp spec fn uppercase_first(c: char) -> char;

/// The first character of the uppercase mapping of `c`, from
/// `char::to_uppercase`. Claimed of std: the name `uppercase_first` gives
/// the result; an ASCII lowercase letter maps to its capital, and any other
/// ASCII character, which has no uppercase mapping, to itself.
#[verifier::external_body]
fn to_uppercase_first(c: char) -> (r: char)
    ensures
        r == uppercase_first(c),
        'a' <= c <= 'z' ==> r as int == c as int - 32,
        (c as int) < 128 && !('a' <= c <= 'z') ==> r == c,
{
    c.to_uppercase().next().unwrap()
}

/// The camel-case form of a snake-case name: underscores are dropped, and
/// the first character and each character that follows an underscore are
/// upper-cased.
pub open spec fn camel_case(s: Seq<char>) -> Seq<char>
    decreases s.len(),
{
    if s.len() == 0 {
        Seq::empty()
    } else {
        let prev = camel_case(s.drop_last());
        let c = s.last();
        if c == '_' {
            prev
        } else if s.len() == 1 || s[s.len() - 2] == '_' {
            prev.push(uppercase_first(c))
        } else {
            prev.push(c)
        }
    }
}

/// The capital of an ASCII lowercase letter; any other character itself.
pub open spec fn ascii_upper(c: char) -> char {
    if 'a' <= c <= 'z' {
        ((c as int) - 32) as char
    } else {
        c
    }
}

/// Every character is ASCII.
pub open spec fn all_ascii(s: Seq<char>) -> bool {
    forall|i: int| 0 <= i < s.len() ==> (#[trigger] s[i] as int) < 128
}

/// The camel-case form of an ASCII snake-case name, as `camel_case` gives it
/// with the ASCII capitals.
pub open spec fn ascii_camel_case(s: Seq<char>) -> Seq<char>
    decreases s.len(),
{
    if s.len() == 0 {
        Seq::empty()
    } else {
        let prev = ascii_camel_case(s.drop_last());
        let c = s.last();
        if c == '_' {
            prev
        } else if s.len() == 1 || s[s.len() - 2] == '_' {
            prev.push(ascii_upper(c))
        } else {
            prev.push(c)
        }
    }
}

/// The type name of a state struct from its file name: `core_state` gives
/// `CoreState`.
pub fn to_camel_case(input: &str) -> (r: String)
    ensures
        r@ == camel_case(input@),
        all_ascii(input@) ==> r@ == ascii_camel_case(input@),
{
    let mut formatted = String::new();
    let mut capitalize_next = false;
    let mut first_letter = true;
    let n = input.unicode_len();
    let mut i: usize = 0;
    assert(input@.take(0) =~= Seq::<char>::empty());
    while i < n
        invariant
            n == input@.len(),
            i <= n,
            formatted@ == camel_case(input@.take(i as int)),
            all_ascii(input@.take(i as int)) ==> formatted@ == ascii_camel_case(input@.take(i as int)),
            capitalize_next == (i > 0 && input@[i - 1] == '_'),
            first_letter == (forall|k: int| 0 <= k < i ==> input@[k] == '_'),
        decreases n - i,
    {
        let character = input.get_char(i);
        let ghost t = input@.take(i + 1);
        assert(t.drop_last() =~= input@.take(i as int));
        assert(all_ascii(t) ==> all_ascii(input@.take(i as int))) by {
            if all_ascii(t) {
                assert forall|k: int| 0 <= k < i implies (#[trigger] input@.take(i as int)[k] as int) < 128 by {
                    assert(t[k] == input@.take(i as int)[k]);
                }
            }
        }
        assert(all_ascii(t) ==> (t[i as int] as int) < 128);
        assert(t[i as int] == character);
        if character == '_' {
            capitalize_next = true;
        } else {
            if capitalize_next == true || first_letter == true {
                if first_letter && i > 0 {
                    assert(input@[i - 1] == '_');
                }
                let up = to_uppercase_first(character);
                proof {
                    if (character as int) < 128 {
                        assert(up == ascii_upper(character));
                    }
                }
                formatted.push(up);
            } else {
                assert(!(input@[i - 1] == '_'));
                formatted.push(character);
            }
            capitalize_next = false;
            first_letter = false;
        }
        i = i + 1;
    }
    assert(input@.take(n as int) =~= input@);
    formatted
}

/// The heading of the state library's source.
pub open spec fn source_head() -> Seq<char> {
    "// ATTENTION: This file is automatically generated. How did you even get here? \n// You should probably modify compile_state.rs, the code that generated this file, instead."@
}

/// One `extern crate` line per dependency.
pub open spec fn crate_lines(deps: Seq<Seq<char>>) -> Seq<char>
    decreases deps.len(),
{
    if deps.len() == 0 {
        Seq::empty()
    } else {
        crate_lines(deps.drop_last()) + "#[macro_use]"@ + "extern crate "@ + deps.last() + ";\n"@
    }
}

/// One `pub use` line per state struct, naming its module and its type.
pub open spec fn use_lines(files: Seq<Seq<char>>) -> Seq<char>
    decreases files.len(),
{
    if files.len() == 0 {
        Seq::empty()
    } else {
        use_lines(files.drop_last()) + "pub use "@ + files.last() + "::"@ + camel_case(files.last())
            + ";\n"@
    }
}

/// One module declaration per state struct, with the path of its source.
pub open spec fn mod_lines(files: Seq<Seq<char>>, structs_dir: Seq<char>) -> Seq<char>
    decreases files.len(),
{
    if files.len() == 0 {
        Seq::empty()
    } else {
        mod_lines(files.drop_last(), structs_dir) + "#[path = \""@ + structs_dir + "/"@
            + files.last() + ".rs\"]\n"@ + "mod "@ + files.last() + ";\n"@
    }
}

/// One field of `Data` per state struct, built with the struct's `new`.
pub open spec fn field_lines(files: Seq<Seq<char>>) -> Seq<char>
    decreases files.len(),
{
    if files.len() == 0 {
        Seq::empty()
    } else {
        field_lines(files.drop_last()) + "       "@ + files.last() + ": "@ + camel_case(files.last())
            + " = "@ + camel_case(files.last()) + "::new()\n"@
    }
}

/// The state library's source for the dependencies `deps` and the state
/// struct files `files` (names without extension) in `structs_dir`.
pub open spec fn state_source(
    deps: Seq<Seq<char>>,
    files: Seq<Seq<char>>,
    structs_dir: Seq<char>,
) -> Seq<char> {
    source_head() + "\n\n"@ + "// Dependencies\n"@ + crate_lines(deps) + "// State structs\n"@
        + use_lines(files) + "\n"@ + mod_lines(files, structs_dir) + "\n"@ + "data! {\n"@
        + "    Data {\n"@ + field_lines(files) + "    }\n"@ + "}\n"@
}

/// The characters of each string.
pub open spec fn string_views(v: Seq<String>) -> Seq<Seq<char>> {
    v.map_values(|s: String| s@)
}

/// Writes the state library's source for the dependencies
/// `dependency_names` and the state struct files `file_names` in
/// `structs_dir`.
pub fn state_source_text(
    dependency_names: &Vec<String>,
    file_names: &Vec<String>,
    structs_dir: &str,
) -> (r: String)
    ensures
        r@ == state_source(string_views(dependency_names@), string_views(file_names@), structs_dir@),
{
    let ghost deps = string_views(dependency_names@);
    let ghost files = string_views(file_names@);
    let mut text = String::from_str("// ATTENTION: This file is automatically generated. How did you even get here? \n// You should probably modify compile_state.rs, the code that generated this file, instead.");
    text.append("\n\n");
    text.append("// Dependencies\n");
    let ghost start = text@;
    let mut i: usize = 0;
    assert(deps.take(0) =~= Seq::<Seq<char>>::empty());
    while i < dependency_names.len()
        invariant
            i <= dependency_names@.len(),
            deps == string_views(dependency_names@),
            text@ == start + crate_lines(deps.take(i as int)),
        decreases dependency_names@.len() - i,
    {
        text.append("#[macro_use]");
        text.append("extern crate ");
        text.append(dependency_names[i].as_str());
        text.append(";\n");
        assert(deps.take(i + 1).drop_last() =~= deps.take(i as int));
        i = i + 1;
    }
    assert(deps.take(dependency_names@.len() as int) =~= deps);
    text.append("// State structs\n");
    let mut type_names: Vec<String> = Vec::new();
    let mut k: usize = 0;
    while k < file_names.len()
        invariant
            k <= file_names@.len(),
            type_names@.len() == k,
            forall|j: int| 0 <= j < k ==> #[trigger] type_names@[j]@ == camel_case(file_names@[j]@),
        decreases file_names@.len() - k,
    {
        type_names.push(to_camel_case(file_names[k].as_str()));
        k = k + 1;
    }
    let ghost start = text@;
    let mut i: usize = 0;
    assert(files.take(0) =~= Seq::<Seq<char>>::empty());
    while i < file_names.len()
        invariant
            i <= file_names@.len(),
            files == string_views(file_names@),
            type_names@.len() == file_names@.len(),
            forall|j: int| 0 <= j < file_names@.len() ==> #[trigger] type_names@[j]@ == camel_case(file_names@[j]@),
            text@ == start + use_lines(files.take(i as int)),
        decreases file_names@.len() - i,
    {
        text.append("pub use ");
        text.append(file_names[i].as_str());
        text.append("::");
        text.append(type_names[i].as_str());
        text.append(";\n");
        assert(files.take(i + 1).drop_last() =~= files.take(i as int));
        i = i + 1;
    }
    assert(files.take(file_names@.len() as int) =~= files);
    text.append("\n");
    let ghost start = text@;
    let mut i: usize = 0;
    while i < file_names.len()
        invariant
            i <= file_names@.len(),
            files == string_views(file_names@),
            text@ == start + mod_lines(files.take(i as int), structs_dir@),
        decreases file_names@.len() - i,
    {
        text.append("#[path = \"");
        text.append(structs_dir);
        text.append("/");
        text.append(file_names[i].as_str());
        text.append(".rs\"]\n");
        text.append("mod ");
        text.append(file_names[i].as_str());
        text.append(";\n");
        assert(files.take(i + 1).drop_last() =~= files.take(i as int));
        i = i + 1;
    }
    text.append("\n");
    text.append("data! {\n");
    text.append("    Data {\n");
    let ghost start = text@;
    let mut i: usize = 0;
    while i < file_names.len()
        invariant
            i <= file_names@.len(),
            files == string_views(file_names@),
            type_names@.len() == file_names@.len(),
            forall|j: int| 0 <= j < file_names@.len() ==> #[trigger] type_names@[j]@ == camel_case(file_names@[j]@),
            text@ == start + field_lines(files.take(i as int)),
        decreases file_names@.len() - i,
    {
        text.append("       ");
        text.append(file_names[i].as_str());
        text.append(": ");
        text.append(type_names[i].as_str());
        text.append(" = ");
        text.append(type_names[i].as_str());
        text.append("::new()\n");
        assert(files.take(i + 1).drop_last() =~= files.take(i as int));
        i = i + 1;
    }
    text.append("    }\n");
    text.append("}\n");
    text
}

/// Why the state library's source could not be written.
#[derive(Debug)]
pub enum GenerateSourceError {
    /// The manifest is not valid TOML; the report of its syntax errors.
    Parse(String),
    /// The manifest has no `dependencies` entry; the message saying so.
    NoDependencies(String),
}

/// The message for a manifest at `path` without a `dependencies` entry.
pub open spec fn no_dependencies_message(path: Seq<char>) -> Seq<char> {
    "No dependencies listed in "@ + path + "."@
}

/// The entry of `key` in an outline: `None` where the key is absent,
/// otherwise the nested keys of its value where that value is a table.
pub open spec fn lookup(
    outline: Seq<(Seq<char>, Option<Seq<Seq<char>>>)>,
    key: Seq<char>,
) -> Option<Option<Seq<Seq<char>>>>
    decreases outline.len(),
{
    if outline.len() == 0 {
        None
    } else if outline[0].0 == key {
        Some(outline[0].1)
    } else {
        lookup(outline.drop_first(), key)
    }
}

/// The `dependencies` entry of the manifest text `text`.
pub open spec fn dependencies_entry(text: Seq<char>) -> Option<Option<Seq<Seq<char>>>> {
    lookup(toml_outline(text), "dependencies"@)
}

/// The crates that a `dependencies` entry pulls in: the keys of its table,
/// or none where it is not a table.
pub open spec fn crate_names(entry: Option<Seq<Seq<char>>>) -> Seq<Seq<char>> {
    match entry {
        Some(names) => names,
        None => Seq::empty(),
    }
}

proof fn lemma_lookup_found(outline: Seq<(Seq<char>, Option<Seq<Seq<char>>>)>, key: Seq<char>)
    ensures
        lookup(outline, key) matches Some(e) ==> exists|i: int|
            0 <= i < outline.len() && #[trigger] outline[i] == (key, e),
    decreases outline.len(),
{
    if outline.len() > 0 && outline[0].0 != key {
        lemma_lookup_found(outline.drop_first(), key);
        if let Some(e) = lookup(outline, key) {
            let i = choose|i: int| 0 <= i < outline.drop_first().len() && #[trigger] outline.drop_first()[i] == (key, e);
            assert(outline[i + 1] == (key, e));
        }
    } else if outline.len() > 0 {
        assert(outline[0] == (key, outline[0].1));
    }
}

/// Finds the entry of `key` among `entries`.
fn find_entry(entries: &Vec<TopLevelEntry>, key: &String) -> (r: Option<usize>)
    ensures
        match r {
            Some(i) => i < entries@.len() && lookup(outline_view(entries@), key@) == Some(
                outline_view(entries@)[i as int].1,
            ),
            None => lookup(outline_view(entries@), key@) is None,
        },
{
    let ghost o = outline_view(entries@);
    let mut i: usize = 0;
    assert(o.skip(0) =~= o);
    while i < entries.len()
        invariant
            i <= entries@.len(),
            o == outline_view(entries@),
            lookup(o, key@) == lookup(o.skip(i as int), key@),
        decreases entries@.len() - i,
    {
        assert(o.skip(i as int)[0] == o[i as int]);
        if entries[i].key == *key {
            return Some(i);
        }
        assert(o.skip(i as int).drop_first() =~= o.skip(i + 1));
        i = i + 1;
    }
    None
}

fn copy_names(names: &Vec<String>) -> (r: Vec<String>)
    ensures
        string_views(r@) == string_views(names@),
{
    let mut out: Vec<String> = Vec::new();
    let mut i: usize = 0;
    while i < names.len()
        invariant
            i <= names@.len(),
            out@.len() == i,
            forall|k: int| 0 <= k < i ==> #[trigger] out@[k]@ == names@[k]@,
        decreases names@.len() - i,
    {
        out.push(names[i].clone());
        i = i + 1;
    }
    assert(string_views(out@) =~= string_views(names@));
    out
}

/// Writes the state library's source from the text of the dependencies
/// manifest, read from `toml_path`, and the state struct files `file_names`
/// in `structs_dir`.
///
/// The crates it pulls in are the keys of the manifest's `dependencies`
/// table, in increasing order, or none where that entry is not a table. A
/// manifest that is not valid TOML, or has no `dependencies` entry, is
/// refused.
pub fn generate_source(
    toml_text: &str,
    toml_path: &str,
    file_names: &Vec<String>,
    structs_dir: &str,
) -> (r: Result<String, GenerateSourceError>)
    ensures
        (r matches Err(GenerateSourceError::Parse(_))) <==> toml_syntax_errors(toml_text@).len() > 0,
        r matches Err(GenerateSourceError::Parse(m)) ==> m@ == error_report(
            toml_path@,
            located_errors(toml_text@),
        ),
        (r matches Err(GenerateSourceError::NoDependencies(_))) <==> toml_syntax_errors(
            toml_text@,
        ).len() == 0 && dependencies_entry(toml_text@) is None,
        r matches Err(GenerateSourceError::NoDependencies(m)) ==> m@ == no_dependencies_message(
            toml_path@,
        ),
        r is Ok <==> toml_syntax_errors(toml_text@).len() == 0 && dependencies_entry(toml_text@) is Some,
        r matches Ok(text) ==> {
            let names = crate_names(dependencies_entry(toml_text@)->0);
            &&& text@ == state_source(names, string_views(file_names@), structs_dir@)
            &&& increasing(names)
        },
{
    let parsed = match parse(toml_text, toml_path) {
        Ok(parsed) => parsed,
        Err(report) => {
            return Err(GenerateSourceError::Parse(report));
        },
    };
    let key = String::from_str("dependencies");
    let names = match find_entry(&parsed.outline, &key) {
        Some(i) => match &parsed.outline[i].table_keys {
            Some(names) => copy_names(names),
            None => Vec::new(),
        },
        None => {
            let mut m = String::from_str("No dependencies listed in ");
            m.append(toml_path);
            m.append(".");
            return Err(GenerateSourceError::NoDependencies(m));
        },
    };
    proof {
        let o = toml_outline(toml_text@);
        lemma_lookup_found(o, "dependencies"@);
        if let Some(Some(ks)) = dependencies_entry(toml_text@) {
            let j = choose|j: int| 0 <= j < o.len() && #[trigger] o[j] == ("dependencies"@, Some(ks));
            assert(o[j].1 matches Some(ks2) ==> increasing(ks2));
        }
        assert(string_views(names@) == crate_names(dependencies_entry(toml_text@)->0));
    }
    let text = state_source_text(&names, file_names, structs_dir);
    Ok(text)
}

/// The number of characters of `s` that are not underscores.
pub open spec fn non_underscore_count(s: Seq<char>) -> nat
    decreases s.len(),
{
    if s.len() == 0 {
        0
    } else {
        non_underscore_count(s.drop_last()) + if s.last() == '_' { 0nat } else { 1nat }
    }
}

/// The camel-case form has one character for each character of the name
/// that is not an underscore: the character itself, or its capital where it
/// begins the name or follows an underscore.
pub proof fn camel_case_keeps_each_letter(s: Seq<char>)
    ensures
        camel_case(s).len() == non_underscore_count(s),
    decreases s.len(),
{
    if s.len() > 0 {
        camel_case_keeps_each_letter(s.drop_last());
    }
}

proof fn lemma_ascii_camel_shape(s: Seq<char>)
    requires
        all_ascii(s),
    ensures
        all_ascii(ascii_camel_case(s)),
        forall|i: int| 0 <= i < ascii_camel_case(s).len() ==> #[trigger] ascii_camel_case(s)[i] != '_',
        ascii_camel_case(s).len() == 0 ==> forall|i: int| 0 <= i < s.len() ==> #[trigger] s[i] == '_',
        ascii_camel_case(s).len() > 0 ==> !('a' <= ascii_camel_case(s)[0] <= 'z'),
    decreases s.len(),
{
    if s.len() > 0 {
        let init = s.drop_last();
        assert forall|i: int| 0 <= i < init.len() implies (#[trigger] init[i] as int) < 128 by {
            assert(init[i] == s[i]);
        }
        lemma_ascii_camel_shape(init);
        let prev = ascii_camel_case(init);
        let c = s.last();
        assert((c as int) < 128) by {
            assert(s[s.len() - 1] == c);
        }
        let u = ascii_upper(c);
        if 'a' <= c <= 'z' {
            assert((u as int) == (c as int) - 32);
        }
        if prev.len() == 0 && c != '_' {
            assert forall|i: int| 0 <= i < init.len() implies #[trigger] init[i] == '_' by {}
            if s.len() > 1 {
                assert(init[s.len() - 2] == '_');
            }
        }
        if ascii_camel_case(s).len() == 0 {
            assert forall|i: int| 0 <= i < s.len() implies #[trigger] s[i] == '_' by {
                if i < s.len() - 1 {
                    assert(init[i] == s[i]);
                }
            }
        }
    }
}

proof fn lemma_ascii_camel_without_underscores(t: Seq<char>)
    requires
        forall|i: int| 0 <= i < t.len() ==> #[trigger] t[i] != '_',
    ensures
        t.len() > 0 ==> ascii_camel_case(t) == t.update(0, ascii_upper(t[0])),
        t.len() == 0 ==> ascii_camel_case(t) == t,
    decreases t.len(),
{
    if t.len() > 0 {
        let init = t.drop_last();
        assert forall|i: int| 0 <= i < init.len() implies #[trigger] init[i] != '_' by {
            assert(init[i] == t[i]);
        }
        lemma_ascii_camel_without_underscores(init);
        assert(t[t.len() - 1] != '_');
        if t.len() > 1 {
            assert(t[t.len() - 2] != '_');
            assert(ascii_camel_case(t) =~= t.update(0, ascii_upper(t[0])));
        } else {
            assert(ascii_camel_case(t) =~= t.update(0, ascii_upper(t[0])));
        }
    }
}

/// On ASCII names, camel-casing twice gives what camel-casing once gives.
pub proof fn ascii_camel_case_is_idempotent(s: Seq<char>)
    requires
        all_ascii(s),
    ensures
        ascii_camel_case(ascii_camel_case(s)) == ascii_camel_case(s),
{
    let c = ascii_camel_case(s);
    lemma_ascii_camel_shape(s);
    lemma_ascii_camel_without_underscores(c);
    if c.len() > 0 {
        assert(ascii_upper(c[0]) == c[0]);
        assert(c.update(0, c[0]) =~= c);
    }
}

} // verus!
