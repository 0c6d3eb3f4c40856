//! The extension table: which language a file extension names.
use vstd::prelude::*;
use crate::text::{opt_text, text_eq, texts};

verus! {

/// The registered (extension, language) pairs, in registration order.
pub open spec fn extension_table() -> Seq<(Seq<char>, Seq<char>)> {
    seq![
        ("js"@, "javascript"@),
        ("jsx"@, "javascript"@),
        ("mjs"@, "javascript"@),
        ("cjs"@, "javascript"@),
        ("ts"@, "typescript"@),
        ("tsx"@, "tsx"@),
        ("py"@, "python"@),
        ("pyw"@, "python"@),
        ("rs"@, "rust"@),
        ("java"@, "java"@),
        ("go"@, "go"@),
        ("c"@, "c"@),
        ("h"@, "c"@),
        ("cpp"@, "cpp"@),
        ("cc"@, "cpp"@),
        ("cxx"@, "cpp"@),
        ("hpp"@, "cpp"@),
        ("hxx"@, "cpp"@),
    ]
}

/// The language registered for `ext` in `table`, looked up from the front.
pub open spec fn lookup(table: Seq<(Seq<char>, Seq<char>)>, ext: Seq<char>) -> Option<Seq<char>>
    decreases table.len(),
{
    if table.len() == 0 {
        None
    } else if table[0].0 == ext {
        Some(table[0].1)
    } else {
        lookup(table.drop_first(), ext)
    }
}

/// The language that the extension `ext` resolves to.
pub open spec fn language_of(ext: Seq<char>) -> Option<Seq<char>> {
    lookup(extension_table(), ext)
}

/// No extension is registered twice.
pub open spec fn keys_unique(table: Seq<(Seq<char>, Seq<char>)>) -> bool {
    forall|i: int, j: int| 0 <= i < j < table.len() ==> table[i].0 != table[j].0
}

/// The extension → language map, built once and read only afterwards.
pub struct LanguageRegistry {
    entries: Vec<(String, String)>,
}

impl LanguageRegistry {
    pub closed spec fn table(&self) -> Seq<(Seq<char>, Seq<char>)> {
        self.entries@.map_values(|e: (String, String)| (e.0@, e.1@))
    }

    #[verifier::type_invariant]
    spec fn holds_extension_table(&self) -> bool {
        self.table() == extension_table()
    }

    /// The registry of every supported extension.
    pub fn new() -> (r: LanguageRegistry)
        ensures
            r.table() == extension_table(),
    {
        let mut entries: Vec<(String, String)> = Vec::new();
        register(&mut entries, "js", "javascript");
        register(&mut entries, "jsx", "javascript");
        register(&mut entries, "mjs", "javascript");
        register(&mut entries, "cjs", "javascript");
        register(&mut entries, "ts", "typescript");
        register(&mut entries, "tsx", "tsx");
        register(&mut entries, "py", "python");
        register(&mut entries, "pyw", "python");
        register(&mut entries, "rs", "rust");
        register(&mut entries, "java", "java");
        register(&mut entries, "go", "go");
        register(&mut entries, "c", "c");
        register(&mut entries, "h", "c");
        register(&mut entries, "cpp", "cpp");
        register(&mut entries, "cc", "cpp");
        register(&mut entries, "cxx", "cpp");
        register(&mut entries, "hpp", "cpp");
        register(&mut entries, "hxx", "cpp");
        assert(entries@.map_values(|e: (String, String)| (e.0@, e.1@)) =~= extension_table());
        LanguageRegistry { entries }
    }

    /// The language registered for the extension `ext` (case-sensitive).
    pub fn language_for_extension(&self, ext: &str) -> (r: Option<String>)
        ensures
            r matches Some(l) ==> language_of(ext@) == Some(l@),
            r is None ==> language_of(ext@) is None,
    {
        proof {
            use_type_invariant(self);
        }
        let mut i: usize = 0;
        assert(self.table().skip(0) =~= self.table());
        while i < self.entries.len()
            invariant
                0 <= i <= self.entries@.len(),
                self.table() == extension_table(),
                lookup(self.table(), ext@) == lookup(self.table().skip(i as int), ext@),
            decreases self.entries@.len() - i,
        {
            let hit = text_eq(self.entries[i].0.as_str(), ext);
            assert(self.table().skip(i as int)[0] == (self.entries@[i as int].0@, self.entries@[i as int].1@));
            if hit {
                let l = self.entries[i].1.clone();
                assert(self.table().skip(i as int).len() > 0);
                return Some(l);
            }
            assert(self.table().skip(i as int).drop_first() =~= self.table().skip(i + 1));
            i += 1;
        }
        None
    }
}

/// What `std::path::Path::extension` gives for a path: the part of the
/// file name after its last dot, if any.
pub uninterp spec fn extension_of(path: Seq<char>) -> Option<Seq<char>>;

/// A bare file name part: not empty and free of dots, path separators and
/// drive colons.
pub open spec fn plain_part(s: Seq<char>) -> bool {
    s.len() > 0 && !s.contains('.') && !s.contains('/') && !s.contains('\\') && !s.contains(':')
}

/// Relies on std::path::Path::extension: the result depends on the path
/// alone, holds no dot, and a path without a dot has none; a file name
/// `stem.ext`, bare or after a `/`, has the extension `ext`.
#[verifier::external_body]
fn path_extension(path: &str) -> (r: Option<String>)
    ensures
        forall|stem: Seq<char>, ext: Seq<char>|
            plain_part(stem) && plain_part(ext) && path@ == stem + seq!['.'] + ext ==> opt_text(r) == Some(ext),
        forall|dir: Seq<char>, stem: Seq<char>, ext: Seq<char>|
            plain_part(stem) && plain_part(ext) && path@ == dir + seq!['/'] + stem + seq!['.'] + ext
                ==> opt_text(r) == Some(ext),
        r is None <==> extension_of(path@) is None,
        r matches Some(e) ==> extension_of(path@) == Some(e@),
        r matches Some(e) ==> !e@.contains('.'),
        !path@.contains('.') ==> r is None,
{
    std::path::Path::new(path).extension().and_then(|e| e.to_str()).map(|e| e.to_string())
}

/// The language that the extension of `path` resolves to.
pub open spec fn language_of_path(path: Seq<char>) -> Option<Seq<char>> {
    match extension_of(path) {
        Some(e) => language_of(e),
        None => None,
    }
}

impl LanguageRegistry {
    /// The language that the extension of `path` is registered with: none
    /// for a path without extension or with an unregistered one.
    pub fn detect_language(&self, path: &str) -> (r: Option<String>)
        ensures
            opt_text(r) == language_of_path(path@),
            !path@.contains('.') ==> r is None,
            forall|stem: Seq<char>, ext: Seq<char>|
                plain_part(stem) && plain_part(ext) && path@ == stem + seq!['.'] + ext ==> language_of_path(
                    path@,
                ) == language_of(ext),
            forall|dir: Seq<char>, stem: Seq<char>, ext: Seq<char>|
                plain_part(stem) && plain_part(ext) && path@ == dir + seq!['/'] + stem + seq!['.'] + ext
                    ==> language_of_path(path@) == language_of(ext),
            !path@.contains('.') ==> language_of_path(path@) is None,
    {
        match path_extension(path) {
            Some(ext) => self.language_for_extension(ext.as_str()),
            None => None,
        }
    }
}

/// Looking up the extension of the `i`-th entry of a table without repeated
/// extensions gives that entry's language.
pub proof fn lemma_lookup_entry(table: Seq<(Seq<char>, Seq<char>)>, i: int)
    requires
        keys_unique(table),
        0 <= i < table.len(),
    ensures
        lookup(table, table[i].0) == Some(table[i].1),
    decreases table.len(),
{
    if i > 0 {
        let rest = table.drop_first();
        assert(keys_unique(rest));
        assert(rest[i - 1] == table[i]);
        lemma_lookup_entry(rest, i - 1);
    }
}

/// Looking up an extension that no entry holds gives nothing.
pub proof fn lemma_lookup_absent(table: Seq<(Seq<char>, Seq<char>)>, ext: Seq<char>)
    requires
        forall|i: int| 0 <= i < table.len() ==> table[i].0 != ext,
    ensures
        lookup(table, ext) is None,
    decreases table.len(),
{
    if table.len() > 0 {
        let rest = table.drop_first();
        assert forall|i: int| 0 <= i < rest.len() implies rest[i].0 != ext by {
            assert(rest[i] == table[i + 1]);
        }
        lemma_lookup_absent(rest, ext);
    }
}

/// The extension table registers no extension twice.
pub proof fn lemma_extension_table_keys_unique()
    ensures
        keys_unique(extension_table()),
{
    reveal_strlit("js");
    reveal_strlit("jsx");
    reveal_strlit("mjs");
    reveal_strlit("cjs");
    reveal_strlit("ts");
    reveal_strlit("tsx");
    reveal_strlit("py");
    reveal_strlit("pyw");
    reveal_strlit("rs");
    reveal_strlit("java");
    reveal_strlit("go");
    reveal_strlit("c");
    reveal_strlit("h");
    reveal_strlit("cpp");
    reveal_strlit("cc");
    reveal_strlit("cxx");
    reveal_strlit("hpp");
    reveal_strlit("hxx");
    let t = extension_table();
    assert forall|i: int, j: int| 0 <= i < j < t.len() implies t[i].0 != t[j].0 by {
        if t[i].0 == t[j].0 {
            assert(t[i].0.len() == t[j].0.len());
            assert(t[i].0[0] == t[j].0[0]);
            assert(t[i].0[t[i].0.len() - 1] == t[j].0[t[j].0.len() - 1]);
        }
    }
}

/// Every registered extension resolves to the language it was registered
/// with, and an extension that is not registered resolves to nothing.
pub proof fn lemma_resolve_registered(ext: Seq<char>)
    ensures
        forall|i: int|
            0 <= i < extension_table().len() && #[trigger] extension_table()[i].0 == ext
                ==> language_of(ext) == Some(extension_table()[i].1),
        (forall|i: int| 0 <= i < extension_table().len() ==> #[trigger] extension_table()[i].0 != ext)
            ==> language_of(ext) is None,
{
    lemma_extension_table_keys_unique();
    assert forall|i: int|
        0 <= i < extension_table().len() && #[trigger] extension_table()[i].0 == ext
            implies language_of(ext) == Some(extension_table()[i].1) by {
        lemma_lookup_entry(extension_table(), i);
    }
    if forall|i: int| 0 <= i < extension_table().len() ==> #[trigger] extension_table()[i].0 != ext {
        lemma_lookup_absent(extension_table(), ext);
    }
}

/// The position of the first group of `lang` at or after `i`, or -1.
pub open spec fn find_group(g: Seq<(Seq<char>, Seq<Seq<char>>)>, lang: Seq<char>, i: int) -> int
    decreases g.len() - i,
{
    if i < 0 || i >= g.len() {
        -1
    } else if g[i].0 == lang {
        i
    } else {
        find_group(g, lang, i + 1)
    }
}

/// `ext` joins the group of `lang`, or opens a new group at the end.
pub open spec fn add_to_group(
    g: Seq<(Seq<char>, Seq<Seq<char>>)>,
    lang: Seq<char>,
    ext: Seq<char>,
) -> Seq<(Seq<char>, Seq<Seq<char>>)> {
    let i = find_group(g, lang, 0);
    if i >= 0 {
        g.update(i, (lang, g[i].1.push(ext)))
    } else {
        g.push((lang, seq![ext]))
    }
}

/// The extensions of `table` grouped by language: languages in order of
/// first registration, each with its extensions in registration order.
pub open spec fn grouped(table: Seq<(Seq<char>, Seq<char>)>) -> Seq<(Seq<char>, Seq<Seq<char>>)>
    decreases table.len(),
{
    if table.len() == 0 {
        Seq::empty()
    } else {
        add_to_group(grouped(table.drop_last()), table.last().1, table.last().0)
    }
}

pub open spec fn groups_view(g: Seq<(String, Vec<String>)>) -> Seq<(Seq<char>, Seq<Seq<char>>)> {
    g.map_values(|e: (String, Vec<String>)| (e.0@, texts(e.1@)))
}

fn add_extension(groups: &mut Vec<(String, Vec<String>)>, lang: &String, ext: &String)
    ensures
        groups_view(final(groups)@) == add_to_group(groups_view(old(groups)@), lang@, ext@),
{
    let ghost g = groups_view(groups@);
    let mut i: usize = 0;
    while i < groups.len()
        invariant
            0 <= i <= groups@.len(),
            g == groups_view(groups@),
            groups@ == old(groups)@,
            find_group(g, lang@, 0) == find_group(g, lang@, i as int),
        decreases groups@.len() - i,
    {
        if text_eq(groups[i].0.as_str(), lang.as_str()) {
            let (l, mut exts) = groups.remove(i);
            let ghost before = exts@;
            exts.push(ext.clone());
            groups.insert(i, (l, exts));
            proof {
                assert(texts(exts@) =~= texts(before).push(ext@));
                assert(groups_view(groups@) =~= g.update(i as int, (lang@, g[i as int].1.push(ext@))));
            }
            return;
        }
        i += 1;
    }
    let mut exts: Vec<String> = Vec::new();
    exts.push(ext.clone());
    groups.push((lang.clone(), exts));
    proof {
        assert(texts(exts@) =~= seq![ext@]);
        assert(groups_view(groups@) =~= g.push((lang@, seq![ext@])));
    }
}

impl LanguageRegistry {
    /// Each supported language with the extensions registered for it.
    pub fn supported_languages(&self) -> (r: Vec<(String, Vec<String>)>)
        ensures
            groups_view(r@) == grouped(extension_table()),
    {
        proof {
            use_type_invariant(self);
        }
        let mut groups: Vec<(String, Vec<String>)> = Vec::new();
        let mut i: usize = 0;
        while i < self.entries.len()
            invariant
                0 <= i <= self.entries@.len(),
                self.table() == extension_table(),
                groups_view(groups@) == grouped(self.table().subrange(0, i as int)),
            decreases self.entries@.len() - i,
        {
            proof {
                assert(self.table().subrange(0, i + 1).drop_last() =~= self.table().subrange(0, i as int));
                assert(self.table().subrange(0, i + 1).last() == self.table()[i as int]);
            }
            add_extension(&mut groups, &self.entries[i].1, &self.entries[i].0);
            i += 1;
        }
        assert(self.table().subrange(0, i as int) =~= self.table());
        groups
    }
}

fn register(entries: &mut Vec<(String, String)>, ext: &str, lang: &str)
    ensures
        final(entries)@.len() == old(entries)@.len() + 1,
        forall|i: int| 0 <= i < old(entries)@.len() ==> final(entries)@[i] == old(entries)@[i],
        final(entries)@.last().0@ == ext@,
        final(entries)@.last().1@ == lang@,
{
    entries.push((String::from_str(ext), String::from_str(lang)));
}

} // verus!
