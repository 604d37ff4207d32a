//! Where providers are looked for, and which files are worth opening.
//!
//! Providers live in one default directory and in the directories of a search
//! path. Every regular file there whose name has the platform's extension for
//! shared libraries is a candidate.

use vstd::prelude::*;
use vstd::string::{StrSliceExecFns, StringExecFns};

verus! {

/// The families of platforms that name shared libraries differently.
#[derive(Clone, Copy, Debug, PartialEq, Eq, Structural)]
pub enum Platform {
    MacOs,
    Windows,
    Other,
}

impl Platform {
    /// The extension of a shared library's file name.
    pub open spec fn extension(self) -> Seq<char> {
        match self {
            Platform::MacOs => "dylib"@,
            Platform::Windows => "dll"@,
            Platform::Other => "so"@,
        }
    }

    /// The character between the entries of a search path.
    pub open spec fn separator(self) -> char {
        match self {
            Platform::Windows => ';',
            _ => ':',
        }
    }

    /// Whether a character opens or closes a quoted stretch of a search
    /// path, in which the separator stands for itself. Only one platform
    /// family has such a character: there a directory's name can hold the
    /// separator, and none can hold the quote.
    pub open spec fn quotes(self, c: char) -> bool {
        self == Platform::Windows && c == '"'
    }

    /// Whether a character ends a directory's name in a path.
    pub open spec fn divides(self, c: char) -> bool {
        c == '/' || (self == Platform::Windows && c == '\\')
    }

    /// The extension of a shared library's file name.
    pub fn dylib_extension(self) -> (extension: &'static str)
        ensures
            extension@ == self.extension(),
    {
        match self {
            Platform::MacOs => "dylib",
            Platform::Windows => "dll",
            Platform::Other => "so",
        }
    }

    /// The character between the entries of a search path.
    pub fn path_separator(self) -> (separator: char)
        ensures
            separator == self.separator(),
    {
        match self {
            Platform::Windows => ';',
            _ => ':',
        }
    }

    /// Whether a character opens or closes a quoted stretch of a search
    /// path.
    pub fn is_quote(self, c: char) -> (quotes: bool)
        ensures
            quotes == self.quotes(c),
    {
        self == Platform::Windows && c == '"'
    }

    /// Whether a character ends a directory's name in a path.
    pub fn is_divider(self, c: char) -> (divides: bool)
        ensures
            divides == self.divides(c),
    {
        c == '/' || (self == Platform::Windows && c == '\\')
    }
}

/// Whether the end of a search path lies in a quoted stretch: whether an
/// odd number of quotes comes before it.
pub open spec fn in_quotes(path: Seq<char>, platform: Platform) -> bool
    decreases path.len(),
{
    if path.len() == 0 {
        false
    } else {
        let before = in_quotes(path.drop_last(), platform);
        if platform.quotes(path.last()) {
            !before
        } else {
            before
        }
    }
}

/// The entries of a search path: what stands between its separators. A
/// separator in a quoted stretch belongs to its entry, and the quotes
/// themselves belong to none. A path with n separating separators has
/// n + 1 entries, empty ones included.
pub open spec fn split_paths(path: Seq<char>, platform: Platform) -> Seq<Seq<char>>
    decreases path.len(),
{
    if path.len() == 0 {
        seq![Seq::empty()]
    } else {
        let earlier = split_paths(path.drop_last(), platform);
        if platform.quotes(path.last()) {
            earlier
        } else if path.last() == platform.separator() && !in_quotes(path.drop_last(), platform) {
            earlier.push(Seq::empty())
        } else {
            earlier.drop_last().push(earlier.last().push(path.last()))
        }
    }
}

/// Entries put together again, with a separator between neighbours.
pub open spec fn join_paths(entries: Seq<Seq<char>>, separator: char) -> Seq<char>
    decreases entries.len(),
{
    if entries.len() == 0 {
        Seq::empty()
    } else if entries.len() == 1 {
        entries[0]
    } else {
        join_paths(entries.drop_last(), separator).push(separator) + entries.last()
    }
}

/// The directories to scan, in the order in which they are scanned: the
/// default directory, then the entries of the search path as listed.
pub open spec fn search_order(
    default_dir: Seq<char>,
    search_path: Option<Seq<char>>,
    platform: Platform,
) -> Seq<Seq<char>> {
    match search_path {
        None => seq![default_dir],
        Some(path) => seq![default_dir] + split_paths(path, platform),
    }
}

/// Whether a search path holds no quote.
pub open spec fn unquoted(path: Seq<char>, platform: Platform) -> bool {
    forall|i: int| 0 <= i < path.len() ==> !platform.quotes(#[trigger] path[i])
}

/// Every search path has an entry, and no entry holds a quote.
pub proof fn lemma_split_paths_drops_quotes(path: Seq<char>, platform: Platform)
    ensures
        split_paths(path, platform).len() >= 1,
        forall|i: int, k: int|
            0 <= i < split_paths(path, platform).len() && 0 <= k < split_paths(
                path,
                platform,
            )[i].len() ==> !platform.quotes(#[trigger] split_paths(path, platform)[i][k]),
    decreases path.len(),
{
    if path.len() > 0 {
        lemma_split_paths_drops_quotes(path.drop_last(), platform);
    }
}

/// Splitting a search path without quotes loses nothing and invents
/// nothing: no entry holds a separator, and the entries joined by
/// separators are the path again.
pub proof fn lemma_split_paths(path: Seq<char>, platform: Platform)
    requires
        unquoted(path, platform),
    ensures
        !in_quotes(path, platform),
        split_paths(path, platform).len() >= 1,
        forall|i: int|
            0 <= i < split_paths(path, platform).len() ==> !(#[trigger] split_paths(
                path,
                platform,
            )[i]).contains(platform.separator()),
        join_paths(split_paths(path, platform), platform.separator()) == path,
    decreases path.len(),
{
    let separator = platform.separator();
    let entries = split_paths(path, platform);
    if path.len() == 0 {
        assert(entries[0] =~= Seq::<char>::empty());
    } else {
        let shorter = path.drop_last();
        let earlier = split_paths(shorter, platform);
        assert(unquoted(shorter, platform)) by {
            assert forall|i: int| 0 <= i < shorter.len() implies !platform.quotes(
                #[trigger] shorter[i],
            ) by {
                assert(shorter[i] == path[i]);
            }
        }
        assert(!platform.quotes(path[path.len() - 1]));
        lemma_split_paths(shorter, platform);
        if path.last() == separator {
            assert(entries.drop_last() =~= earlier);
            assert(join_paths(entries, separator) =~= shorter.push(separator));
            assert(shorter.push(separator) =~= path);
            assert forall|i: int| 0 <= i < entries.len() implies !(#[trigger] entries[i]).contains(
                separator,
            ) by {
                if i < earlier.len() {
                    assert(entries[i] == earlier[i]);
                }
            }
        } else {
            let grown = earlier.last().push(path.last());
            assert(entries.last() == grown);
            assert forall|i: int| 0 <= i < entries.len() implies !(#[trigger] entries[i]).contains(
                separator,
            ) by {
                if i < earlier.len() - 1 {
                    assert(entries[i] == earlier[i]);
                } else {
                    assert(!earlier.last().contains(separator));
                    assert forall|k: int| 0 <= k < grown.len() implies grown[k] != separator by {
                        if k < earlier.last().len() {
                            assert(earlier.last()[k] == grown[k]);
                            assert(earlier.last().contains(grown[k]));
                        }
                    }
                }
            }
            if earlier.len() == 1 {
                assert(join_paths(earlier, separator) == earlier[0]);
                assert(join_paths(entries, separator) =~= shorter.push(path.last()));
            } else {
                assert(entries.drop_last() =~= earlier.drop_last());
                assert(join_paths(entries, separator) =~= join_paths(earlier, separator).push(
                    path.last(),
                ));
            }
            assert(shorter.push(path.last()) =~= path);
        }
    }
}

/// Splits a search path into its entries.
pub fn split_search_path(search_path: &str, platform: Platform) -> (entries: Vec<String>)
    ensures
        entries.deep_view() == split_paths(search_path@, platform),
{
    let total: usize = search_path.unicode_len();
    let separator = platform.path_separator();
    let mut entries: Vec<String> = Vec::new();
    let mut current: String = String::new();
    let mut quoted: bool = false;
    let mut start: usize = 0;
    let mut i: usize = 0;
    assert(search_path@.take(0) =~= Seq::<char>::empty());
    assert(entries.deep_view().push(current@ + search_path@.subrange(0, 0)) =~= seq![
        Seq::<char>::empty(),
    ]);
    for c in it: search_path.chars()
        invariant
            i == it.index(),
            it.seq() == search_path@,
            total == search_path@.len(),
            start <= i <= total,
            separator == platform.separator(),
            quoted == in_quotes(search_path@.take(i as int), platform),
            split_paths(search_path@.take(i as int), platform) == entries.deep_view().push(
                current@ + search_path@.subrange(start as int, i as int),
            ),
    {
        let ghost done = entries.deep_view();
        let ghost open = current@ + search_path@.subrange(start as int, i as int);
        assert(search_path@.take(i + 1).drop_last() =~= search_path@.take(i as int));
        assert(search_path@.take(i + 1).last() == c);
        if platform.is_quote(c) {
            current.append(search_path.substring_char(start, i));
            quoted = !quoted;
            start = i + 1;
            assert(current@ + search_path@.subrange(start as int, i + 1) =~= open);
        } else if c == separator && !quoted {
            current.append(search_path.substring_char(start, i));
            entries.push(current);
            current = String::new();
            start = i + 1;
            assert(entries.deep_view() =~= done.push(open));
            assert(current@ + search_path@.subrange(start as int, i + 1) =~= Seq::<char>::empty());
        } else {
            assert(done.push(open).drop_last() =~= done);
            assert(open.push(c) =~= current@ + search_path@.subrange(start as int, i + 1));
        }
        i = i + 1;
    }
    let ghost done = entries.deep_view();
    assert(search_path@.take(i as int) =~= search_path@);
    current.append(search_path.substring_char(start, total));
    entries.push(current);
    assert(entries.deep_view() =~= done.push(current@));
    entries
}

/// Lists the directories to scan in scanning order: the default directory
/// first, then every entry of the search path, if there is one.
pub fn search_directories(
    default_dir: &str,
    search_path: Option<&str>,
    platform: Platform,
) -> (directories: Vec<String>)
    ensures
        directories.deep_view() == search_order(
            default_dir@,
            match search_path {
                Some(path) => Some(path@),
                None => None,
            },
            platform,
        ),
        directories@.len() >= 1,
        directories@[0]@ == default_dir@,
{
    let mut directories: Vec<String> = Vec::new();
    directories.push(String::from_str(default_dir));
    assert(directories.deep_view() =~= seq![default_dir@]);
    match search_path {
        None => {},
        Some(path) => {
            let mut entries = split_search_path(path, platform);
            let ghost first = directories.deep_view();
            let ghost rest = entries.deep_view();
            directories.append(&mut entries);
            assert(directories.deep_view() =~= first + rest);
        },
    }
    directories
}

/// A path without what is passed over at its end: dividers, and components
/// that are a single dot.
pub open spec fn trimmed(path: Seq<char>, platform: Platform) -> Seq<char>
    decreases path.len(),
{
    if path.len() == 0 {
        path
    } else if platform.divides(path.last()) {
        trimmed(path.drop_last(), platform)
    } else if path.last() == '.' && (path.len() == 1 || platform.divides(path[path.len() - 2])) {
        trimmed(path.drop_last(), platform)
    } else {
        path
    }
}

/// Where the last component of a path begins: behind its last divider.
pub open spec fn file_name_start(path: Seq<char>, platform: Platform) -> int
    decreases path.len(),
{
    if path.len() == 0 {
        0
    } else if platform.divides(path.last()) {
        path.len() as int
    } else {
        file_name_start(path.drop_last(), platform)
    }
}

/// The name of the file that a path leads to: its last component that is
/// neither empty nor a single dot. A path that ends in two dots names no
/// file, and neither does one without such a component.
pub open spec fn file_name(path: Seq<char>, platform: Platform) -> Option<Seq<char>> {
    let kept = trimmed(path, platform);
    let name = kept.skip(file_name_start(kept, platform));
    if kept.len() == 0 || name == seq!['.', '.'] {
        None
    } else {
        Some(name)
    }
}

/// Index of the last dot of a name, or -1 where it has none.
pub open spec fn last_dot(name: Seq<char>) -> int
    decreases name.len(),
{
    if name.len() == 0 {
        -1
    } else if name.last() == '.' {
        name.len() - 1
    } else {
        last_dot(name.drop_last())
    }
}

/// The extension of a file name: what follows its last dot. A name without
/// a dot has none, and neither has one whose only dot comes first.
pub open spec fn extension_of(name: Seq<char>) -> Option<Seq<char>> {
    let dot = last_dot(name);
    if dot <= 0 {
        None
    } else {
        Some(name.skip(dot + 1))
    }
}

/// Whether a path names a shared library by the platform's convention:
/// whether it names a file whose extension is the platform's.
pub open spec fn names_dylib(path: Seq<char>, platform: Platform) -> bool {
    match file_name(path, platform) {
        None => false,
        Some(name) => extension_of(name) == Some(platform.extension()),
    }
}

/// The characters of a text, one by one.
pub fn chars_of(text: &str) -> (chars: Vec<char>)
    ensures
        chars@ == text@,
{
    let total: usize = text.unicode_len();
    let mut chars: Vec<char> = Vec::new();
    let mut i: usize = 0;
    for c in it: text.chars()
        invariant
            i == it.index(),
            it.seq() == text@,
            total == text@.len(),
            i <= total,
            chars@ == text@.take(i as int),
    {
        chars.push(c);
        assert(chars@ =~= text@.take(i + 1));
        i = i + 1;
    }
    assert(text@.take(i as int) =~= text@);
    chars
}

/// Whether the characters from `from` up to `to` are those of `other`.
fn same_chars(chars: &Vec<char>, from: usize, to: usize, other: &Vec<char>) -> (same: bool)
    requires
        from <= to <= chars@.len(),
    ensures
        same == (chars@.subrange(from as int, to as int) == other@),
{
    if to - from != other.len() {
        return false;
    }
    let mut k: usize = 0;
    while k < other.len()
        invariant
            from <= to <= chars@.len(),
            to - from == other@.len(),
            k <= other@.len(),
            chars@.subrange(from as int, from + k) == other@.take(k as int),
        decreases other@.len() - k,
    {
        if chars[from + k] != other[k] {
            assert(chars@.subrange(from as int, to as int)[k as int] != other@[k as int]);
            return false;
        }
        assert(chars@.subrange(from as int, from + k + 1) =~= chars@.subrange(
            from as int,
            from + k,
        ).push(chars@[from + k]));
        assert(other@.take(k + 1) =~= other@.take(k as int).push(other@[k as int]));
        k = k + 1;
    }
    assert(other@.take(k as int) =~= other@);
    true
}

/// Whether a path names a shared library: whether the extension of the file
/// that it names is the platform's extension for shared libraries. Dividers
/// at the end of the path do not count, nor do components that are a single
/// dot.
pub fn is_dylib(path: &str, platform: Platform) -> (dylib: bool)
    ensures
        dylib == names_dylib(path@, platform),
{
    let chars = chars_of(path);
    let mut end: usize = chars.len();
    assert(path@.take(end as int) =~= path@);
    while end > 0 && (platform.is_divider(chars[end - 1]) || (chars[end - 1] == '.' && (end == 1
        || platform.is_divider(chars[end - 2]))))
        invariant
            chars@ == path@,
            end <= chars@.len(),
            trimmed(path@, platform) == trimmed(path@.take(end as int), platform),
        decreases end,
    {
        assert(path@.take(end as int).drop_last() =~= path@.take(end - 1));
        end = end - 1;
    }
    let ghost kept = path@.take(end as int);
    assert(trimmed(kept, platform) == kept);
    if end == 0 {
        return false;
    }
    let mut start: usize = end;
    assert(kept.take(start as int) =~= kept);
    while start > 0 && !platform.is_divider(chars[start - 1])
        invariant
            chars@ == path@,
            start <= end <= chars@.len(),
            kept == path@.take(end as int),
            file_name_start(kept, platform) == file_name_start(kept.take(start as int), platform),
        decreases start,
    {
        assert(kept.take(start as int).drop_last() =~= kept.take(start - 1));
        start = start - 1;
    }
    let ghost name = kept.skip(start as int);
    assert(name =~= path@.subrange(start as int, end as int));
    if end - start == 2 && chars[start] == '.' && chars[start + 1] == '.' {
        assert(name =~= seq!['.', '.']);
        return false;
    }
    assert(name != seq!['.', '.']) by {
        if name.len() == 2 {
            assert(name[0] == path@[start as int] && name[1] == path@[start + 1]);
        }
    }
    let mut dot: usize = end;
    assert(name.take(dot - start) =~= name);
    while dot > start && chars[dot - 1] != '.'
        invariant
            chars@ == path@,
            start <= dot <= end <= chars@.len(),
            name == path@.subrange(start as int, end as int),
            last_dot(name) == last_dot(name.take(dot - start)),
        decreases dot,
    {
        assert(name.take(dot - start).drop_last() =~= name.take(dot - start - 1));
        dot = dot - 1;
    }
    if dot <= start + 1 {
        return false;
    }
    assert(name.skip(dot - start) =~= path@.subrange(dot as int, end as int));
    let extension = chars_of(platform.dylib_extension());
    same_chars(&chars, dot, end, &extension)
}

/// Whether an entry of a scanned directory is worth opening as a plugin: it
/// is a regular file and is named like a shared library.
pub fn is_candidate(is_file: bool, path: &str, platform: Platform) -> (candidate: bool)
    ensures
        candidate == (is_file && names_dylib(path@, platform)),
{
    is_file && is_dylib(path, platform)
}

} // verus!
