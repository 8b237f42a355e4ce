//! What the system's own files say of it.
use crate::text;
use vstd::prelude::*;
use vstd::string::*;

verus! {

/// The operating systems that are told apart.
#[derive(Clone, Copy, Debug, PartialEq, Eq, Structural)]
pub enum Os {
    Macos,
    Linux,
    Windows,
    Other,
}

impl Os {
    /// The system of this name.
    pub open spec fn named(name: Seq<char>) -> Os {
        if name == "macos"@ {
            Os::Macos
        } else if name == "linux"@ {
            Os::Linux
        } else if name == "windows"@ {
            Os::Windows
        } else {
            Os::Other
        }
    }

    /// The system of this name.
    pub fn of(name: &str) -> (r: Os)
        ensures
            r == Os::named(name@),
    {
        if text::same_text(name, "macos") {
            Os::Macos
        } else if text::same_text(name, "linux") {
            Os::Linux
        } else if text::same_text(name, "windows") {
            Os::Windows
        } else {
            Os::Other
        }
    }

    /// The file that tells the system's version.
    pub open spec fn version_path(self) -> Option<Seq<char>> {
        match self {
            Os::Linux => Some("/etc/os-release"@),
            Os::Macos => Some("/System/Library/CoreServices/SystemVersion.plist"@),
            _ => None,
        }
    }

    /// The file that tells the system's version.
    pub fn version_file(self) -> (r: Option<&'static str>)
        ensures
            match r {
                Some(p) => self.version_path() == Some(p@),
                None => self.version_path() is None,
            },
            match self {
                Os::Linux => r matches Some(p) && p@ == "/etc/os-release"@,
                Os::Macos => r matches Some(p) && p@
                    == "/System/Library/CoreServices/SystemVersion.plist"@,
                _ => r is None,
            },
    {
        match self {
            Os::Linux => Some("/etc/os-release"),
            Os::Macos => Some("/System/Library/CoreServices/SystemVersion.plist"),
            _ => None,
        }
    }
}

// ── os-release ───────────────────────────────────────────────────────────────

/// What follows `prefix` in the first line that begins with it, quotes aside.
pub open spec fn first_value(lines: Seq<Seq<char>>, prefix: Seq<char>) -> Option<Seq<char>>
    decreases lines.len(),
{
    if lines.len() == 0 {
        None
    } else {
        match text::after_prefix(lines[0], prefix) {
            Some(v) => Some(text::without_around(v, '"')),
            None => first_value(lines.drop_first(), prefix),
        }
    }
}

/// What follows `prefix` in the last line that begins with it, quotes aside.
pub open spec fn last_value(lines: Seq<Seq<char>>, prefix: Seq<char>) -> Option<Seq<char>>
    decreases lines.len(),
{
    if lines.len() == 0 {
        None
    } else {
        match text::after_prefix(lines.last(), prefix) {
            Some(v) => Some(text::without_around(v, '"')),
            None => last_value(lines.drop_last(), prefix),
        }
    }
}

/// An optional character vector, as a text.
pub open spec fn chars_view(v: Option<Vec<char>>) -> Option<Seq<char>> {
    match v {
        Some(c) => Some(c@),
        None => None,
    }
}

/// What follows `prefix` in the first line that begins with it, quotes aside.
pub fn find_first_value(lines: &Vec<Vec<char>>, prefix: &str) -> (r: Option<Vec<char>>)
    ensures
        chars_view(r) == first_value(text::pieces(lines@), prefix@),
{
    let ghost all = text::pieces(lines@);
    let mut i: usize = 0;
    assert(all.skip(0) =~= all);
    while i < lines.len()
        invariant
            i <= lines@.len(),
            all == text::pieces(lines@),
            first_value(all, prefix@) == first_value(all.skip(i as int), prefix@),
        decreases lines@.len() - i,
    {
        proof {
            assert(all.skip(i as int)[0] == lines@[i as int]@);
            assert(all.skip(i as int).drop_first() =~= all.skip(i + 1));
        }
        if let Some(v) = text::strip_prefix(lines[i].as_slice(), prefix) {
            return Some(text::trim_around(v.as_slice(), '"'));
        }
        i = i + 1;
    }
    None
}

/// What follows `prefix` in the last line that begins with it, quotes aside.
pub fn find_last_value(lines: &Vec<Vec<char>>, prefix: &str) -> (r: Option<Vec<char>>)
    ensures
        chars_view(r) == last_value(text::pieces(lines@), prefix@),
{
    let ghost all = text::pieces(lines@);
    let mut i: usize = lines.len();
    assert(all.take(all.len() as int) =~= all);
    while i > 0
        invariant
            i <= lines@.len(),
            all == text::pieces(lines@),
            last_value(all, prefix@) == last_value(all.take(i as int), prefix@),
        decreases i,
    {
        proof {
            assert(all.take(i as int).last() == lines@[i - 1]@);
            assert(all.take(i as int).drop_last() =~= all.take(i - 1));
        }
        if let Some(v) = text::strip_prefix(lines[i - 1].as_slice(), prefix) {
            return Some(text::trim_around(v.as_slice(), '"'));
        }
        i = i - 1;
    }
    None
}

// ── Property lists ───────────────────────────────────────────────────────────

/// The text of a line that holds one string of a property list.
pub open spec fn plist_string(line: Seq<char>) -> Seq<char> {
    text::without_suffixes(
        text::without_prefixes(text::trimmed(line), "<string>"@),
        "</string>"@,
    )
}

/// The text of a line that holds one string of a property list.
pub fn read_plist_string(line: &[char]) -> (r: Vec<char>)
    ensures
        r@ == plist_string(line@),
{
    let t = text::trim(line);
    let p = text::trim_prefixes(t.as_slice(), "<string>");
    text::trim_suffixes(p.as_slice(), "</string>")
}

/// The text in the line after the first line that holds `key` and nothing else.
pub open spec fn plist_value(lines: Seq<Seq<char>>, key: Seq<char>) -> Option<Seq<char>>
    decreases lines.len(),
{
    if lines.len() < 2 {
        None
    } else if text::trimmed(lines[0]) == key {
        Some(plist_string(lines[1]))
    } else {
        plist_value(lines.drop_first(), key)
    }
}

/// Tests whether a line holds `key` and nothing else.
pub fn is_key_line(line: &[char], key: &str) -> (r: bool)
    ensures
        r == (text::trimmed(line@) == key@),
{
    let t = text::trim(line);
    let s = text::string_of(t.as_slice());
    text::same_text(s.as_str(), key)
}

/// The text in the line after the first line that holds `key` and nothing else.
pub fn find_plist_value(lines: &Vec<Vec<char>>, key: &str) -> (r: Option<Vec<char>>)
    ensures
        chars_view(r) == plist_value(text::pieces(lines@), key@),
{
    let ghost all = text::pieces(lines@);
    let mut i: usize = 0;
    assert(all.skip(0) =~= all);
    while lines.len() - i >= 2
        invariant
            i <= lines@.len(),
            all == text::pieces(lines@),
            plist_value(all, key@) == plist_value(all.skip(i as int), key@),
        decreases lines@.len() - i,
    {
        proof {
            assert(all.skip(i as int)[0] == lines@[i as int]@);
            assert(all.skip(i as int)[1] == lines@[i + 1]@);
            assert(all.skip(i as int).drop_first() =~= all.skip(i + 1));
        }
        if is_key_line(lines[i].as_slice(), key) {
            return Some(read_plist_string(lines[i + 1].as_slice()));
        }
        i = i + 1;
    }
    None
}

/// What a scan of a property list has found.
pub struct ProductView {
    pub name: Option<Seq<char>>,
    pub version: Option<Seq<char>>,
}

/// A line that names the version of the product.
pub open spec fn is_version_key(line: Seq<char>) -> bool {
    ||| text::trimmed(line) == "<key>ProductUserVisibleVersion</key>"@
    ||| text::trimmed(line) == "<key>ProductVersion</key>"@
}

/// What a property list says of the product, on top of what is known. The line
/// after a key is its value, and is not looked at as a key. The last value counts.
pub open spec fn product_in(lines: Seq<Seq<char>>, known: ProductView) -> ProductView
    decreases lines.len(),
{
    if lines.len() < 2 {
        known
    } else if text::trimmed(lines[0]) == "<key>ProductName</key>"@ {
        product_in(
            lines.skip(2),
            ProductView { name: Some(plist_string(lines[1])), version: known.version },
        )
    } else if is_version_key(lines[0]) {
        product_in(
            lines.skip(2),
            ProductView { name: known.name, version: Some(plist_string(lines[1])) },
        )
    } else {
        product_in(lines.drop_first(), known)
    }
}

/// What a property list says of the product: its name and its version.
pub fn find_product(lines: &Vec<Vec<char>>) -> (r: (Option<Vec<char>>, Option<Vec<char>>))
    ensures
        (ProductView { name: chars_view(r.0), version: chars_view(r.1) }) == product_in(
            text::pieces(lines@),
            ProductView { name: None, version: None },
        ),
{
    let ghost all = text::pieces(lines@);
    let mut name: Option<Vec<char>> = None;
    let mut version: Option<Vec<char>> = None;
    let mut i: usize = 0;
    assert(all.skip(0) =~= all);
    while lines.len() - i >= 2
        invariant
            i <= lines@.len(),
            all == text::pieces(lines@),
            product_in(all, ProductView { name: None, version: None }) == product_in(
                all.skip(i as int),
                ProductView { name: chars_view(name), version: chars_view(version) },
            ),
        decreases lines@.len() - i,
    {
        proof {
            assert(all.skip(i as int)[0] == lines@[i as int]@);
            assert(all.skip(i as int)[1] == lines@[i + 1]@);
            assert(all.skip(i as int).drop_first() =~= all.skip(i + 1));
            assert(all.skip(i as int).skip(2) =~= all.skip(i + 2));
        }
        if is_key_line(lines[i].as_slice(), "<key>ProductName</key>") {
            name = Some(read_plist_string(lines[i + 1].as_slice()));
            i = i + 2;
        } else if is_key_line(lines[i].as_slice(), "<key>ProductUserVisibleVersion</key>")
            || is_key_line(lines[i].as_slice(), "<key>ProductVersion</key>") {
            version = Some(read_plist_string(lines[i + 1].as_slice()));
            i = i + 2;
        } else {
            i = i + 1;
        }
    }
    (name, version)
}

/// The part of a version before its first dot.
pub open spec fn major(version: Seq<char>) -> Seq<char> {
    version.take(text::index_of_char(version, '.') as int)
}

/// The part of a version before its first dot.
pub fn major_part(version: &[char]) -> (r: Vec<char>)
    ensures
        r@ == major(version@),
{
    assert(version@.skip(0) =~= version@);
    let k: usize = text::skip_to_char(version, '.', 0);
    let r = text::part(version, 0, k);
    assert(r@ =~= version@.take(k as int));
    r
}

// ── Laws ─────────────────────────────────────────────────────────────────────

/// Of the lines with a prefix the first one counts for a first value, and the last one
/// for a last value; other lines do not count, and quotes around the value are taken
/// off.
pub proof fn law_lines_with_the_prefix_count(
    lines: Seq<Seq<char>>,
    prefix: Seq<char>,
    value: Seq<char>,
    other: Seq<char>,
)
    requires
        !text::begins_with(other, prefix),
    ensures
        first_value(seq![prefix + value] + lines, prefix) == Some(
            text::without_around(value, '"'),
        ),
        first_value(seq![other] + lines, prefix) == first_value(lines, prefix),
        last_value(lines.push(prefix + value), prefix) == Some(text::without_around(value, '"')),
        last_value(lines.push(other), prefix) == last_value(lines, prefix),
        first_value(Seq::<Seq<char>>::empty(), prefix) is None,
        last_value(Seq::<Seq<char>>::empty(), prefix) is None,
{
    let line = prefix + value;
    text::law_texts_are_found_where_they_stand(Seq::<char>::empty(), prefix, value);
    assert((seq![line] + lines)[0] == line);
    assert((seq![other] + lines)[0] == other);
    assert((seq![other] + lines).drop_first() =~= lines);
    assert(lines.push(other).drop_last() =~= lines);
    assert(lines.push(line).last() == line);
    assert(lines.push(other).last() == other);
}

/// The major version is what stands before the first dot, and all of a version that has
/// none.
pub proof fn law_major_versions_end_at_the_dot(major_version: Seq<char>, rest: Seq<char>)
    requires
        forall|i: int| 0 <= i < major_version.len() ==> #[trigger] major_version[i] != '.',
    ensures
        major(major_version + seq!['.'] + rest) == major_version,
        major(major_version) == major_version,
{
    let v = major_version + seq!['.'] + rest;
    assert forall|i: int| 0 <= i < major_version.len() implies #[trigger] v[i] != '.' by {
        assert(v[i] == major_version[i]);
    }
    text::lemma_index_of_char_is(v, '.', major_version.len());
    assert(v.take(major_version.len() as int) =~= major_version);
    text::lemma_index_of_char_is(major_version, '.', major_version.len());
    assert(major_version.take(major_version.len() as int) =~= major_version);
}

/// The value of a key in a property list is the string in the line behind the key;
/// lines before the key do not count.
pub proof fn law_values_stand_behind_their_key(
    other: Seq<char>,
    key_line: Seq<char>,
    value_line: Seq<char>,
    rest: Seq<Seq<char>>,
    key: Seq<char>,
)
    requires
        text::trimmed(key_line) == key,
        text::trimmed(other) != key,
    ensures
        plist_value(seq![key_line, value_line] + rest, key) == Some(plist_string(value_line)),
        rest.len() > 0 ==> plist_value(seq![other] + rest, key) == plist_value(rest, key),
        plist_value(Seq::<Seq<char>>::empty(), key) is None,
{
    let a = seq![key_line, value_line] + rest;
    assert(a[0] == key_line && a[1] == value_line);
    assert((seq![other] + rest).drop_first() =~= rest);
}

/// A string of a property list is what stands between its tags, whatever white space
/// stands around them.
pub proof fn law_strings_stand_between_their_tags(a: Seq<char>, value: Seq<char>, b: Seq<char>)
    requires
        text::all_space(a),
        text::all_space(b),
        !text::begins_with(value + "</string>"@, "<string>"@),
        !text::occurs_at(value, "</string>"@, value.len() - 9),
    ensures
        plist_string(a + ("<string>"@ + value + "</string>"@) + b) == value,
{
    reveal_strlit("<string>");
    reveal_strlit("</string>");
    let p = "<string>"@;
    let q = "</string>"@;
    let s = p + value + q;
    assert(s[0] == '<' && s.last() == '>');
    text::law_trimmed_is_what_stands_between(a, s, b);
    assert(s.subrange(0, 8) =~= p);
    assert(s.skip(8) =~= value + q);
    assert(text::without_prefixes(s, p) == text::without_prefixes(value + q, p));
    assert(text::without_prefixes(value + q, p) == value + q);
    let t = value + q;
    let n = value.len() as int;
    assert(t.subrange(n, n + 9) =~= q);
    assert(t.take(n) =~= value);
    assert(text::without_suffixes(t, q) == text::without_suffixes(value, q));
}

/// Each system that is told apart has a name of its own.
pub proof fn law_systems_are_told_by_their_name(name: Seq<char>)
    ensures
        Os::named(name) == Os::Macos <==> name == "macos"@,
        Os::named(name) == Os::Linux <==> name == "linux"@,
        Os::named(name) == Os::Windows <==> name == "windows"@,
{
    reveal_strlit("macos");
    reveal_strlit("linux");
    reveal_strlit("windows");
    assert("macos"@[0] != "linux"@[0]);
    assert("macos"@.len() != "windows"@.len());
    assert("linux"@.len() != "windows"@.len());
}

/// Either key names the version, whatever white space stands around it. The last value
/// counts, and what stands in the line of a value is no key.
pub proof fn law_either_key_names_the_version(
    a: Seq<char>,
    b: Seq<char>,
    value: Seq<char>,
    rest: Seq<Seq<char>>,
    known: ProductView,
    visible: bool,
)
    requires
        text::all_space(a),
        text::all_space(b),
    ensures
        ({
            let key = if visible {
                "<key>ProductUserVisibleVersion</key>"@
            } else {
                "<key>ProductVersion</key>"@
            };
            let name = "<key>ProductName</key>"@;
            &&& product_in(seq![a + key + b, value] + rest, known) == product_in(
                rest,
                ProductView { version: Some(plist_string(value)), ..known },
            )
            &&& product_in(seq![a + name + b, value] + rest, known) == product_in(
                rest,
                ProductView { name: Some(plist_string(value)), ..known },
            )
            &&& product_in(seq![value], known) == known
            &&& text::trimmed(value) != name && !is_version_key(value) ==> product_in(
                seq![value] + rest,
                known,
            ) == product_in(rest, known)
        }),
{
    reveal_strlit("<key>ProductUserVisibleVersion</key>");
    reveal_strlit("<key>ProductVersion</key>");
    reveal_strlit("<key>ProductName</key>");
    let key = if visible {
        "<key>ProductUserVisibleVersion</key>"@
    } else {
        "<key>ProductVersion</key>"@
    };
    let name = "<key>ProductName</key>"@;
    assert(key[0] == '<' && key.last() == '>' && name[0] == '<' && name.last() == '>');
    assert(key.len() != name.len());
    text::law_ascii_space('<');
    text::law_ascii_space('>');
    text::law_trimmed_is_what_stands_between(a, key, b);
    text::law_trimmed_is_what_stands_between(a, name, b);
    let v = seq![a + key + b, value] + rest;
    let n = seq![a + name + b, value] + rest;
    assert(v.skip(2) =~= rest);
    assert(n.skip(2) =~= rest);
    assert((seq![value] + rest).drop_first() =~= rest);
}

/// A file tells the version on Linux and on macOS, and each has its own.
pub proof fn law_versions_stand_in_their_files(os: Os)
    ensures
        os.version_path() is Some <==> os == Os::Linux || os == Os::Macos,
        os == Os::Linux ==> os.version_path() == Some("/etc/"@ + "os-release"@),
        os == Os::Macos ==> os.version_path() == Some(
            "/System/Library/CoreServices/"@ + "SystemVersion.plist"@,
        ),
{
    reveal_strlit("/etc/os-release");
    reveal_strlit("/etc/");
    reveal_strlit("os-release");
    reveal_strlit("/System/Library/CoreServices/SystemVersion.plist");
    reveal_strlit("/System/Library/CoreServices/");
    reveal_strlit("SystemVersion.plist");
    assert("/etc/os-release"@ =~= "/etc/"@ + "os-release"@);
    assert("/System/Library/CoreServices/SystemVersion.plist"@
        =~= "/System/Library/CoreServices/"@ + "SystemVersion.plist"@);
}

} // verus!
