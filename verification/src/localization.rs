//! Localization: localized UI strings loaded from embedded YAML catalogs.
//!
//! Each language has one catalog, embedded in the binary. Nested YAML sections flatten
//! to dotted keys (`board.add`), and placeholders use `{curly_braces}`. Lookups fall
//! back to English, and a missing key returns the key itself: missing texts are
//! visible, never a crash. The [`Localizer`] is constructor-injected like every other
//! collaborator (no globals).

use vstd::prelude::*;

use crate::domain::config::Language;
use crate::text::{chars_of, debug_quoted, rust_debug_str, same_text, string_from_chars};

verus! {

// --- The YAML document model ---

/// A parsed YAML value, as far as catalogs care: a mapping (its entries in document
/// order), a string, or any other value (kept as its debug rendering, for messages).
pub enum YamlNode {
    Mapping(Vec<YamlEntry>),
    Text(String),
    Other(String),
}

/// One entry of a YAML mapping; the key is `None` unless it is a string.
pub struct YamlEntry {
    pub key: Option<String>,
    pub value: YamlNode,
}

/// The abstract contents of a [`YamlNode`].
pub ghost enum YamlTree {
    Mapping(Seq<(Option<Seq<char>>, YamlTree)>),
    Text(Seq<char>),
    Other(Seq<char>),
}

/// The view of an optional string.
pub open spec fn opt_chars(s: Option<String>) -> Option<Seq<char>> {
    match s {
        Some(t) => Some(t@),
        None => None,
    }
}

/// The abstract contents of a node.
pub open spec fn node_tree(n: YamlNode) -> YamlTree
    decreases n,
{
    match n {
        YamlNode::Mapping(entries) => YamlTree::Mapping(
            Seq::new(
                entries@.len(),
                |i: int|
                    if 0 <= i < entries@.len() {
                        (opt_chars(entries@[i].key), node_tree(entries@[i].value))
                    } else {
                        (None, YamlTree::Text(Seq::empty()))
                    },
            ),
        ),
        YamlNode::Text(s) => YamlTree::Text(s@),
        YamlNode::Other(s) => YamlTree::Other(s@),
    }
}

impl View for YamlNode {
    type V = YamlTree;

    open spec fn view(&self) -> YamlTree {
        node_tree(*self)
    }
}

/// The document `serde_yaml_ng::from_str::<serde_yaml_ng::Value>` parses from `text`,
/// or `None` where it reports an error.
pub uninterp spec fn yaml_document(text: Seq<char>) -> Option<YamlTree>;

#[verifier::external_type_specification]
#[verifier::external_body]
pub struct ExYamlValue(serde_yaml_ng::Value);

/// What [`yaml_tree`] reads: YAML text, or a value already parsed from it.
pub enum YamlSource<'a> {
    Text(&'a str),
    Value(&'a serde_yaml_ng::Value),
}

/// `serde_yaml_ng::from_str::<serde_yaml_ng::Value>` on text, then the value converted
/// into the document model one node per value (mapping entries in order, string keys
/// and values as text, any other value as its debug rendering); given a parsed value,
/// only the conversion. The contract claims, for text, that the parse succeeds exactly
/// where the named document exists and gives that document; the error's message is not
/// described, and nothing is claimed for a value.
#[verifier::external_body]
fn yaml_tree(source: YamlSource) -> (r: Result<YamlNode, String>)
    ensures
        source matches YamlSource::Text(text) ==> (r is Ok <==> yaml_document(text@) is Some),
        source matches YamlSource::Text(text) ==> (r matches Ok(n) ==> yaml_document(text@) == Some(n@)),
{
    match source {
        YamlSource::Text(text) => match serde_yaml_ng::from_str::<serde_yaml_ng::Value>(text) {
            Ok(value) => yaml_tree(YamlSource::Value(&value)),
            Err(error) => Err(error.to_string()),
        },
        YamlSource::Value(serde_yaml_ng::Value::Mapping(map)) => {
            let mut entries = Vec::new();
            for (key, child) in map {
                entries.push(YamlEntry { key: key.as_str().map(str::to_owned), value: yaml_tree(YamlSource::Value(child))? });
            }
            Ok(YamlNode::Mapping(entries))
        },
        YamlSource::Value(serde_yaml_ng::Value::String(text)) => Ok(YamlNode::Text(text.clone())),
        YamlSource::Value(other) => Ok(YamlNode::Other(format!("{other:?}"))),
    }
}

// --- Flattening ---

/// A flattened catalog: `(dotted key, text)` pairs in document order.
pub type CatalogView = Seq<(Seq<char>, Seq<char>)>;

/// The dotted key of `name` under `prefix`.
pub open spec fn child_key(prefix: Seq<char>, name: Seq<char>) -> Seq<char> {
    if prefix.len() == 0 {
        name
    } else {
        prefix + seq!['.'] + name
    }
}

/// The message for a mapping key that is not a string.
pub open spec fn non_string_key_message(prefix: Seq<char>) -> Seq<char> {
    "non-string key under "@ + rust_debug_str(prefix)
}

/// The message for a value that is neither a mapping nor a string.
pub open spec fn not_a_string_message(prefix: Seq<char>, rendered: Seq<char>) -> Seq<char> {
    "value at "@ + rust_debug_str(prefix) + " must be a string, got "@ + rendered
}

/// The entries of a tree under `prefix`, or the message of its first offending value.
pub open spec fn flat_tree(t: YamlTree, prefix: Seq<char>) -> Result<CatalogView, Seq<char>>
    decreases t,
{
    match t {
        YamlTree::Mapping(entries) => flat_entries(entries, prefix),
        YamlTree::Text(text) => Ok(seq![(prefix, text)]),
        YamlTree::Other(rendered) => Err(not_a_string_message(prefix, rendered)),
    }
}

/// The entries of a mapping's entries under `prefix`, in order.
pub open spec fn flat_entries(entries: Seq<(Option<Seq<char>>, YamlTree)>, prefix: Seq<char>) -> Result<
    CatalogView,
    Seq<char>,
>
    decreases entries,
{
    if entries.len() == 0 {
        Ok(Seq::empty())
    } else {
        match flat_entries(entries.drop_last(), prefix) {
            Err(m) => Err(m),
            Ok(earlier) => match entries.last().0 {
                None => Err(non_string_key_message(prefix)),
                Some(name) => match flat_tree(entries.last().1, child_key(prefix, name)) {
                    Err(m) => Err(m),
                    Ok(more) => Ok(earlier + more),
                },
            },
        }
    }
}

/// Once a prefix of a mapping's entries fails to flatten, the whole mapping fails
/// with the same message.
proof fn lemma_flat_entries_error(
    s: Seq<(Option<Seq<char>>, YamlTree)>,
    prefix: Seq<char>,
    j: int,
)
    requires
        0 <= j <= s.len(),
        flat_entries(s.take(j), prefix) is Err,
    ensures
        flat_entries(s, prefix) == flat_entries(s.take(j), prefix),
    decreases s.len() - j,
{
    if j < s.len() {
        assert(s.take(j + 1).drop_last() =~= s.take(j));
        lemma_flat_entries_error(s, prefix, j + 1);
    } else {
        assert(s.take(j) =~= s);
    }
}

/// The views of catalog pairs.
pub open spec fn pairs_view(v: Seq<(String, String)>) -> CatalogView {
    v.map_values(|p: (String, String)| (p.0@, p.1@))
}

/// The dotted key of `name` under `prefix`, built.
fn make_child_key(prefix: &String, name: &String) -> (r: String)
    ensures
        r@ == child_key(prefix@, name@),
{
    if prefix.as_str().is_empty() {
        name.clone()
    } else {
        let mut key = prefix.clone();
        key.append(".");
        key.append(name.as_str());
        proof {
            reveal_strlit(".");
        }
        key
    }
}

/// Appends the entries of `node` under `prefix` to `out`; stops at the first value that
/// is neither a mapping nor a string, or key that is not a string.
fn flatten(node: &YamlNode, prefix: String, out: &mut Vec<(String, String)>) -> (r: Result<(), String>)
    ensures
        match flat_tree(node@, prefix@) {
            Ok(entries) => r is Ok && pairs_view(final(out)@) == pairs_view(old(out)@) + entries,
            Err(m) => r matches Err(e) && e@ == m,
        },
    decreases node,
{
    match node {
        YamlNode::Mapping(entries) => {
            let ghost tree_entries = Seq::new(
                entries@.len(),
                |i: int|
                    if 0 <= i < entries@.len() {
                        (opt_chars(entries@[i].key), node_tree(entries@[i].value))
                    } else {
                        (None, YamlTree::Text(Seq::empty()))
                    },
            );
            proof {
                assert(node@->Mapping_0 =~= tree_entries);
            }
            let ghost start = pairs_view(out@);
            let mut i: usize = 0;
            proof {
                assert(tree_entries.take(0) =~= Seq::<(Option<Seq<char>>, YamlTree)>::empty());
                assert(start + Seq::<(Seq<char>, Seq<char>)>::empty() =~= start);
            }
            while i < entries.len()
                invariant
                    i <= entries@.len(),
                    start == pairs_view(old(out)@),
                    *node == YamlNode::Mapping(*entries),
                    flat_tree(node@, prefix@) == flat_entries(tree_entries, prefix@),
                    tree_entries.len() == entries@.len(),
                    forall|k: int|
                        0 <= k < entries@.len() ==> #[trigger] tree_entries[k] == (
                        opt_chars(entries@[k].key),
                        node_tree(entries@[k].value),
                    ),
                    flat_entries(tree_entries.take(i as int), prefix@) matches Ok(done) && pairs_view(
                        out@,
                    ) == start + done,
                decreases entries.len() - i,
            {
                let entry = &entries[i];
                proof {
                    assert(tree_entries.take(i + 1).drop_last() =~= tree_entries.take(i as int));
                    assert(tree_entries.take(i + 1).last() == tree_entries[i as int]);
                }
                let name = match &entry.key {
                    Some(name) => name,
                    None => {
                        let mut message = String::from_str("non-string key under ");
                        let quoted = debug_quoted(prefix.as_str());
                        message.append(quoted.as_str());
                        proof {
                            assert(message@ == non_string_key_message(prefix@));
                            assert(flat_entries(tree_entries.take(i + 1), prefix@) == Err::<CatalogView, Seq<char>>(message@));
                            lemma_flat_entries_error(tree_entries, prefix@, i + 1);
                        }
                        return Err(message);
                    },
                };
                let child_prefix = make_child_key(&prefix, name);
                proof {
                    assert(decreases_to!(*node => node->Mapping_0));
                    assert(decreases_to!(node->Mapping_0 => (node->Mapping_0)@));
                    assert(decreases_to!((node->Mapping_0)@ => (node->Mapping_0)@[i as int]));
                    assert(decreases_to!((node->Mapping_0)@[i as int] => (node->Mapping_0)@[i as int].value));
                }
                let flattened = flatten(&entry.value, child_prefix, out);
                match flattened {
                    Ok(()) => {},
                    Err(message) => {
                        proof {
                            assert(flat_entries(tree_entries.take(i + 1), prefix@) == Err::<CatalogView, Seq<char>>(message@));
                            lemma_flat_entries_error(tree_entries, prefix@, i + 1);
                        }
                        return Err(message);
                    },
                }
                proof {
                    let done = flat_entries(tree_entries.take(i as int), prefix@)->Ok_0;
                    let more = flat_tree(entry.value@, child_key(prefix@, name@))->Ok_0;
                    assert(pairs_view(out@) =~= start + (done + more));
                }
                i = i + 1;
            }
            proof {
                assert(tree_entries.take(i as int) =~= tree_entries);
            }
            Ok(())
        },
        YamlNode::Text(text) => {
            let ghost before = out@;
            out.push((prefix, text.clone()));
            proof {
                assert(pairs_view(out@) =~= pairs_view(before) + seq![(prefix@, text@)]);
            }
            Ok(())
        },
        YamlNode::Other(rendered) => {
            let mut message = String::from_str("value at ");
            let quoted = debug_quoted(prefix.as_str());
            message.append(quoted.as_str());
            message.append(" must be a string, got ");
            message.append(rendered.as_str());
            proof {
                reveal_strlit("value at ");
                reveal_strlit(" must be a string, got ");
            }
            Err(message)
        },
    }
}


/// The catalog a YAML text flattens to, or `None` where it does not parse or holds a
/// key or value that is not a string.
pub open spec fn parsed_catalog(text: Seq<char>) -> Option<CatalogView> {
    match yaml_document(text) {
        Some(t) => match flat_tree(t, Seq::empty()) {
            Ok(entries) => Some(entries),
            Err(_) => None,
        },
        None => None,
    }
}

/// Parses a YAML catalog into flat `(dotted.key, text)` pairs, in document order.
///
/// # Errors
/// The parser's message where the text is not YAML; a message naming the offending
/// key where a key or value is not a string.
pub fn parse_catalog(yaml: &str) -> (r: Result<Vec<(String, String)>, String>)
    ensures
        match yaml_document(yaml@) {
            None => r is Err,
            Some(t) => match flat_tree(t, Seq::empty()) {
                Ok(entries) => r matches Ok(v) && pairs_view(v@) == entries,
                Err(m) => r matches Err(e) && e@ == m,
            },
        },
        r is Ok <==> parsed_catalog(yaml@) is Some,
        r matches Ok(v) ==> parsed_catalog(yaml@) == Some(pairs_view(v@)),
{
    let value = match yaml_tree(YamlSource::Text(yaml)) {
        Ok(v) => v,
        Err(message) => {
            return Err(message);
        },
    };
    let mut entries: Vec<(String, String)> = Vec::new();
    let prefix = String::new();
    proof {
        assert(prefix@ =~= Seq::<char>::empty());
        assert(pairs_view(entries@) =~= Seq::<(Seq<char>, Seq<char>)>::empty());
    }
    match flatten(&value, prefix, &mut entries) {
        Ok(()) => {
            proof {
                let es = flat_tree(value@, Seq::empty())->Ok_0;
                assert(pairs_view(entries@) =~= es);
            }
            Ok(entries)
        },
        Err(message) => Err(message),
    }
}

// --- Lookup ---

/// The text stored under `key`: a later pair overrides an earlier one with the same
/// key, as inserting into a map does.
pub open spec fn catalog_lookup(entries: CatalogView, key: Seq<char>) -> Option<Seq<char>>
    decreases entries.len(),
{
    if entries.len() == 0 {
        None
    } else if entries.last().0 == key {
        Some(entries.last().1)
    } else {
        catalog_lookup(entries.drop_last(), key)
    }
}

/// The text shown for `key`: from `entries`, else from `fallback`, else the key itself.
pub open spec fn localized_text(entries: CatalogView, fallback: CatalogView, key: Seq<char>) -> Seq<char> {
    match catalog_lookup(entries, key) {
        Some(text) => text,
        None => match catalog_lookup(fallback, key) {
            Some(text) => text,
            None => key,
        },
    }
}

/// `s` with every occurrence of the non-empty `pattern` replaced by `with`, scanning
/// left to right without overlaps (what `str::replace` does).
pub open spec fn replace_all(s: Seq<char>, pattern: Seq<char>, with: Seq<char>) -> Seq<char>
    decreases s.len(),
{
    if pattern.len() == 0 || s.len() < pattern.len() {
        s
    } else if s.take(pattern.len() as int) == pattern {
        with + replace_all(s.skip(pattern.len() as int), pattern, with)
    } else {
        seq![s[0]] + replace_all(s.drop_first(), pattern, with)
    }
}

/// The placeholder `{name}`.
pub open spec fn placeholder(name: Seq<char>) -> Seq<char> {
    seq!['{'] + name + seq!['}']
}

/// `text` with each argument's placeholder replaced by its value, argument by
/// argument in order.
pub open spec fn interpolate(text: Seq<char>, args: Seq<(Seq<char>, Seq<char>)>) -> Seq<char>
    decreases args.len(),
{
    if args.len() == 0 {
        text
    } else {
        replace_all(interpolate(text, args.drop_last()), placeholder(args.last().0), args.last().1)
    }
}

/// The views of interpolation arguments.
pub open spec fn args_view(args: Seq<(&str, String)>) -> Seq<(Seq<char>, Seq<char>)> {
    args.map_values(|a: (&str, String)| (a.0@, a.1@))
}

/// Whether `pattern` occurs in `s` at `at`.
fn occurs_at(s: &Vec<char>, pattern: &Vec<char>, at: usize) -> (r: bool)
    requires
        at <= s@.len(),
    ensures
        r == (s@.len() - at >= pattern@.len() && s@.skip(at as int).take(pattern@.len() as int)
            == pattern@),
{
    if s.len() - at < pattern.len() {
        return false;
    }
    let mut k: usize = 0;
    while k < pattern.len()
        invariant
            k <= pattern@.len(),
            at + pattern@.len() <= s@.len() <= usize::MAX,
            forall|m: int| 0 <= m < k ==> s@[at + m] == pattern@[m],
        decreases pattern.len() - k,
    {
        let index: usize = at + k;
        if s[index] != pattern[k] {
            proof {
                assert(s@.skip(at as int).take(pattern@.len() as int)[k as int] != pattern@[k as int]);
            }
            return false;
        }
        k = k + 1;
    }
    proof {
        assert(s@.skip(at as int).take(pattern@.len() as int) =~= pattern@);
    }
    true
}

/// Replaces every occurrence of the non-empty `pattern` in `s` by `with`.
fn replace_chars(s: &Vec<char>, pattern: &Vec<char>, with: &Vec<char>) -> (r: Vec<char>)
    requires
        pattern@.len() > 0,
    ensures
        r@ == replace_all(s@, pattern@, with@),
{
    let mut out: Vec<char> = Vec::new();
    let mut i: usize = 0;
    proof {
        assert(s@.skip(0) =~= s@);
    }
    while i < s.len()
        invariant
            i <= s@.len(),
            pattern@.len() > 0,
            out@ + replace_all(s@.skip(i as int), pattern@, with@) == replace_all(s@, pattern@, with@),
        decreases s.len() - i,
    {
        let ghost rest = s@.skip(i as int);
        if occurs_at(s, pattern, i) {
            let mut k: usize = 0;
            let ghost before = out@;
            while k < with.len()
                invariant
                    k <= with@.len(),
                    out@ == before + with@.take(k as int),
                decreases with.len() - k,
            {
                out.push(with[k]);
                k = k + 1;
                proof {
                    assert(out@ =~= before + with@.take(k as int));
                }
            }
            proof {
                assert(with@.take(k as int) =~= with@);
                assert(rest.skip(pattern@.len() as int) =~= s@.skip(i + pattern@.len()));
                assert(out@ + replace_all(s@.skip(i + pattern@.len()), pattern@, with@) =~= before + (
                with@ + replace_all(rest.skip(pattern@.len() as int), pattern@, with@)));
            }
            i = i + pattern.len();
        } else {
            let ghost before = out@;
            out.push(s[i]);
            proof {
                assert(rest.drop_first() =~= s@.skip(i + 1));
                assert(rest[0] == s@[i as int]);
                if rest.len() < pattern@.len() {
                    assert(s@.skip(i + 1).len() < pattern@.len());
                    assert(rest =~= seq![s@[i as int]] + s@.skip(i + 1));
                }
                assert(out@ + replace_all(s@.skip(i + 1), pattern@, with@) =~= before + (seq![s@[i as int]]
                    + replace_all(s@.skip(i + 1), pattern@, with@)));
            }
            i = i + 1;
        }
    }
    proof {
        assert(s@.skip(i as int) =~= Seq::<char>::empty());
        assert(out@ + Seq::<char>::empty() =~= out@);
    }
    out
}

/// The text stored under `key` in `entries` (the last pair with that key).
fn lookup_in<'a>(entries: &'a Vec<(String, String)>, key: &str) -> (r: Option<&'a String>)
    ensures
        match catalog_lookup(pairs_view(entries@), key@) {
            Some(text) => r matches Some(s) && s@ == text,
            None => r is None,
        },
{
    let mut k: usize = entries.len();
    proof {
        assert(pairs_view(entries@).take(k as int) =~= pairs_view(entries@));
    }
    while k > 0
        invariant
            k <= entries@.len(),
            catalog_lookup(pairs_view(entries@), key@) == catalog_lookup(
                pairs_view(entries@).take(k as int),
                key@,
            ),
        decreases k,
    {
        let ghost taken = pairs_view(entries@).take(k as int);
        proof {
            assert(taken.drop_last() =~= pairs_view(entries@).take(k - 1));
            assert(taken.last() == (entries@[k - 1].0@, entries@[k - 1].1@));
        }
        if same_text(entries[k - 1].0.as_str(), key) {
            return Some(&entries[k - 1].1);
        }
        k = k - 1;
    }
    None
}

/// The embedded English catalog: the reference for every other catalog.
pub const EN_CATALOG: &'static str = "board:\n  add: \"Add\"\napp:\n  bank_balance: \"Bank: {pomos} pomos (\u{2248} {minutes} min)\"\nsettings:\n  language: \"Language\"\n";

/// The embedded Turkish catalog.
pub const TR_CATALOG: &'static str = "board:\n  add: \"Ekle\"\napp:\n  bank_balance: \"Banka: {pomos} pomo (\u{2248} {minutes} dk)\"\nsettings:\n  language: \"Dil\"\n";

/// The embedded Spanish catalog.
pub const ES_CATALOG: &'static str = "board:\n  add: \"A\u{f1}adir\"\napp:\n  bank_balance: \"Banco: {pomos} pomos (\u{2248} {minutes} min)\"\nsettings:\n  language: \"Idioma\"\n";

/// The embedded Azerbaijani catalog.
pub const AZ_CATALOG: &'static str = "board:\n  add: \"\u{18f}lav\u{259} et\"\napp:\n  bank_balance: \"Bank: {pomos} pomo (\u{2248} {minutes} d\u{259}q)\"\nsettings:\n  language: \"Dil\"\n";

/// The text of a language's embedded catalog.
pub open spec fn catalog_text(language: Language) -> Seq<char> {
    match language {
        Language::English => EN_CATALOG@,
        Language::Turkish => TR_CATALOG@,
        Language::Spanish => ES_CATALOG@,
        Language::Azerbaijani => AZ_CATALOG@,
    }
}

/// Returns the embedded catalog source for a language.
pub fn catalog_source(language: Language) -> (r: &'static str)
    ensures
        r@ == catalog_text(language),
{
    match language {
        Language::English => EN_CATALOG,
        Language::Turkish => TR_CATALOG,
        Language::Spanish => ES_CATALOG,
        Language::Azerbaijani => AZ_CATALOG,
    }
}

/// Copies catalog pairs.
fn copy_pairs(pairs: &Vec<(String, String)>) -> (r: Vec<(String, String)>)
    ensures
        pairs_view(r@) == pairs_view(pairs@),
{
    let mut out: Vec<(String, String)> = Vec::new();
    let mut i: usize = 0;
    while i < pairs.len()
        invariant
            i <= pairs@.len(),
            pairs_view(out@) == pairs_view(pairs@).take(i as int),
        decreases pairs.len() - i,
    {
        let ghost before = out@;
        out.push((pairs[i].0.clone(), pairs[i].1.clone()));
        proof {
            assert(pairs_view(out@) =~= pairs_view(before).push((pairs@[i as int].0@, pairs@[i as int].1@)));
            assert(pairs_view(pairs@).take(i + 1) =~= pairs_view(pairs@).take(i as int).push(
                pairs_view(pairs@)[i as int],
            ));
        }
        i = i + 1;
    }
    proof {
        assert(pairs_view(pairs@).take(i as int) =~= pairs_view(pairs@));
    }
    out
}

/// Translates dotted keys into the configured language.
pub struct Localizer {
    entries: Vec<(String, String)>,
    fallback: Vec<(String, String)>,
}

impl Localizer {
    /// The configured language's catalog.
    pub closed spec fn spec_entries(&self) -> CatalogView {
        pairs_view(self.entries@)
    }

    /// The English catalog consulted for keys the configured one lacks.
    pub closed spec fn spec_fallback(&self) -> CatalogView {
        pairs_view(self.fallback@)
    }

    /// Builds a localizer for `language`, with English as the fallback.
    ///
    /// The embedded catalogs must parse (see [`Localizer::try_new`] for the checked
    /// form).
    pub fn new(language: Language) -> (r: Self)
        requires
            parsed_catalog(catalog_text(Language::English)) is Some,
            parsed_catalog(catalog_text(language)) is Some,
        ensures
            Some(r.spec_fallback()) == parsed_catalog(catalog_text(Language::English)),
            Some(r.spec_entries()) == parsed_catalog(catalog_text(language)),
    {
        let fallback = match parse_catalog(catalog_source(Language::English)) {
            Ok(v) => v,
            Err(_) => Vec::new(),
        };
        let entries = if language == Language::English {
            copy_pairs(&fallback)
        } else {
            match parse_catalog(catalog_source(language)) {
                Ok(v) => v,
                Err(_) => Vec::new(),
            }
        };
        Localizer { entries, fallback }
    }

    /// Builds a localizer for `language`, or `None` where an embedded catalog it needs
    /// does not parse.
    pub fn try_new(language: Language) -> (r: Option<Self>)
        ensures
            r is Some <==> parsed_catalog(catalog_text(Language::English)) is Some
                && parsed_catalog(catalog_text(language)) is Some,
            r matches Some(l) ==> Some(l.spec_fallback()) == parsed_catalog(
                catalog_text(Language::English),
            ) && Some(l.spec_entries()) == parsed_catalog(catalog_text(language)),
    {
        let english = parse_catalog(catalog_source(Language::English));
        let own = parse_catalog(catalog_source(language));
        if english.is_ok() && own.is_ok() {
            Some(Localizer::new(language))
        } else {
            None
        }
    }

    /// A localizer over the given catalogs (`fallback` is consulted for keys that
    /// `entries` lacks).
    pub fn from_entries(entries: Vec<(String, String)>, fallback: Vec<(String, String)>) -> (r: Self)
        ensures
            r.spec_entries() == pairs_view(entries@),
            r.spec_fallback() == pairs_view(fallback@),
    {
        Localizer { entries, fallback }
    }

    /// Looks up `key`, falling back to English, then to the key itself.
    pub fn t<'a>(&'a self, key: &'a str) -> (r: &'a str)
        ensures
            r@ == localized_text(self.spec_entries(), self.spec_fallback(), key@),
    {
        match lookup_in(&self.entries, key) {
            Some(text) => text.as_str(),
            None => match lookup_in(&self.fallback, key) {
                Some(text) => text.as_str(),
                None => key,
            },
        }
    }

    /// Looks up `key` and replaces each `{name}` placeholder with its value.
    pub fn t_args(&self, key: &str, args: &[(&str, String)]) -> (r: String)
        ensures
            r@ == interpolate(localized_text(self.spec_entries(), self.spec_fallback(), key@), args_view(args@)),
    {
        let mut text = chars_of(self.t(key));
        let mut i: usize = 0;
        while i < args.len()
            invariant
                i <= args@.len(),
                text@ == interpolate(
                    localized_text(self.spec_entries(), self.spec_fallback(), key@),
                    args_view(args@).take(i as int),
                ),
            decreases args.len() - i,
        {
            let mut pattern: Vec<char> = Vec::new();
            pattern.push('{');
            let name = chars_of(args[i].0);
            let mut k: usize = 0;
            while k < name.len()
                invariant
                    k <= name@.len(),
                    pattern@ == seq!['{'] + name@.take(k as int),
                decreases name.len() - k,
            {
                pattern.push(name[k]);
                k = k + 1;
                proof {
                    assert(pattern@ =~= seq!['{'] + name@.take(k as int));
                }
            }
            pattern.push('}');
            let value = chars_of(args[i].1.as_str());
            proof {
                assert(name@.take(k as int) =~= name@);
                assert(pattern@ =~= placeholder(args_view(args@)[i as int].0));
                assert(args_view(args@).take(i + 1).drop_last() =~= args_view(args@).take(i as int));
            }
            text = replace_chars(&text, &pattern, &value);
            i = i + 1;
        }
        proof {
            assert(args_view(args@).take(i as int) =~= args_view(args@));
        }
        string_from_chars(text.as_slice())
    }
}
} // verus!
