//! The manifest data model: an album title together with an ordered list of
//! (track key, source identifier) records, and the line-oriented text format
//! the records are read from and written to.

use vstd::prelude::*;

verus! {

/// One manifest record: a track key paired with an opaque source identifier.
pub type Entry = (String, String);

/// Index of the first occurrence of `c` in `s`; `s.len()` when `c` is absent.
pub open spec fn find_char(s: Seq<char>, c: char) -> int
    decreases s.len(),
{
    if s.len() == 0 {
        0
    } else if s[0] == c {
        0
    } else {
        1 + find_char(s.drop_first(), c)
    }
}

pub proof fn lemma_find_char(s: Seq<char>, c: char)
    ensures
        0 <= find_char(s, c) <= s.len(),
        find_char(s, c) < s.len() ==> s[find_char(s, c)] == c,
        forall|j: int| 0 <= j < find_char(s, c) ==> s[j] != c,
    decreases s.len(),
{
    if s.len() != 0 && s[0] != c {
        lemma_find_char(s.drop_first(), c);
        assert forall|j: int| 0 <= j < find_char(s, c) implies s[j] != c by {
            if j >= 1 {
                assert(s.drop_first()[j - 1] == s[j]);
            }
        }
    }
}

/// `find_char` is pinned down by the first-occurrence description: if nothing
/// before `t` is `c`, and `t` is either `c` or the end, then `find_char` is `t`.
pub proof fn lemma_find_char_at(s: Seq<char>, c: char, t: int)
    requires
        0 <= t <= s.len(),
        forall|j: int| 0 <= j < t ==> s[j] != c,
        t < s.len() ==> s[t] == c,
    ensures
        find_char(s, c) == t,
    decreases s.len(),
{
    if s.len() == 0 {
    } else if s[0] == c {
        assert(t == 0);
    } else {
        assert(s[0] != c);
        assert(t >= 1);
        assert forall|j: int| 0 <= j < t - 1 implies s.drop_first()[j] != c by {
            assert(s.drop_first()[j] == s[j + 1]);
        }
        assert(t - 1 < s.drop_first().len() ==> s.drop_first()[t - 1] == c);
        lemma_find_char_at(s.drop_first(), c, t - 1);
    }
}

/// One parsed line: split at the first `=`; a line without `=` is no record.
pub open spec fn spec_parse_line(line: Seq<char>) -> Option<(Seq<char>, Seq<char>)> {
    let n = find_char(line, '=');
    if n == line.len() {
        None
    } else {
        Some((line.take(n), line.skip(n + 1)))
    }
}

/// The records held in a manifest text: one candidate record per `\n`-separated
/// line, a line without `=` silently dropped, no trimming of whitespace.
pub open spec fn spec_parse(s: Seq<char>) -> Seq<(Seq<char>, Seq<char>)>
    decreases s.len(),
    via spec_parse_decreases
{
    if s.len() == 0 {
        Seq::empty()
    } else {
        let n = find_char(s, '\n');
        let rest = if n == s.len() {
            Seq::<char>::empty()
        } else {
            s.skip(n + 1)
        };
        match spec_parse_line(s.take(n)) {
            Some(e) => seq![e] + spec_parse(rest),
            None => spec_parse(rest),
        }
    }
}

#[via_fn]
proof fn spec_parse_decreases(s: Seq<char>) {
    if s.len() != 0 {
        lemma_find_char(s, '\n');
    }
}

/// Reads the manifest records out of a text source, line by line: each line is
/// split once at its first `=` into a key and an identifier, and lines without
/// `=` are dropped.
pub fn from_album_source(source: &str) -> (entries: Vec<Entry>)
    ensures
        entries.deep_view() == spec_parse(source@),
{
    let len = source.unicode_len();
    let mut entries: Vec<Entry> = Vec::new();
    let mut i: usize = 0;
    proof {
        assert(source@.skip(0) =~= source@);
        assert(entries.deep_view() + spec_parse(source@) =~= spec_parse(source@));
    }
    while i < len
        invariant
            i <= len,
            len == source@.len(),
            spec_parse(source@) == entries.deep_view() + spec_parse(source@.skip(i as int)),
        decreases len - i,
    {
        let ghost s = source@;
        let ghost i0 = i as int;
        let ghost tail = s.skip(i0);
        // scan for the end of the current line
        let mut j: usize = i;
        while j < len && source.get_char(j) != '\n'
            invariant
                i <= j <= len,
                len == source@.len(),
                forall|m: int| i <= m < j ==> source@[m] != '\n',
            decreases len - j,
        {
            j += 1;
        }
        // scan for the first '=' of the line
        let mut k: usize = i;
        while k < j && source.get_char(k) != '='
            invariant
                i <= k <= j <= len,
                len == source@.len(),
                j < len ==> source@[j as int] == '\n',
                forall|m: int| i <= m < j ==> source@[m] != '\n',
                forall|m: int| i <= m < k ==> source@[m] != '=',
            decreases j - k,
        {
            k += 1;
        }
        let ghost j0 = j as int;
        let ghost k0 = k as int;
        let ghost line = tail.take(j0 - i0);
        let ghost rest = if j0 - i0 == tail.len() {
            Seq::<char>::empty()
        } else {
            tail.skip(j0 - i0 + 1)
        };
        let ghost next = if j < len {
            j0 + 1
        } else {
            len as int
        };
        proof {
            assert forall|m: int| 0 <= m < j0 - i0 implies tail[m] != '\n' by {
                assert(tail[m] == s[i0 + m]);
            }
            lemma_find_char_at(tail, '\n', j0 - i0);
            assert forall|m: int| 0 <= m < k0 - i0 implies line[m] != '=' by {
                assert(line[m] == s[i0 + m]);
            }
            lemma_find_char_at(line, '=', k0 - i0);
            // one unfolding of spec_parse at the current line boundary
            assert(spec_parse(tail) == match spec_parse_line(line) {
                Some(e) => seq![e] + spec_parse(rest),
                None => spec_parse(rest),
            });
            if j < len {
                assert(rest =~= s.skip(next));
            } else {
                assert(s.skip(next) =~= Seq::<char>::empty());
            }
            assert(spec_parse(rest) == spec_parse(s.skip(next)));
            if k < j {
                assert(line.take(k0 - i0) =~= s.subrange(i0, k0));
                assert(line.skip(k0 - i0 + 1) =~= s.subrange(k0 + 1, j0));
            }
        }
        if k < j {
            let key = source.substring_char(i, k).to_owned();
            let value = source.substring_char(k + 1, j).to_owned();
            let ghost before = entries.deep_view();
            proof {
                assert(spec_parse_line(line) == Some((key@, value@)));
            }
            entries.push((key, value));
            proof {
                assert(entries.deep_view() =~= before.push((key@, value@)));
                assert(spec_parse(tail) == seq![(key@, value@)] + spec_parse(rest));
                assert(entries.deep_view() + spec_parse(s.skip(next)) =~= before + spec_parse(tail));
            }
        } else {
            proof {
                assert(spec_parse_line(line) is None);
                assert(spec_parse(tail) == spec_parse(s.skip(next)));
            }
        }
        if j < len {
            i = j + 1;
        } else {
            i = len;
        }
    }
    proof {
        assert(source@.skip(len as int) =~= Seq::<char>::empty());
        assert(entries.deep_view() + spec_parse(source@.skip(len as int)) =~= entries.deep_view());
    }
    entries
}

/// Character-for-character equality of two string slices.
pub fn str_eq(a: &str, b: &str) -> (r: bool)
    ensures
        r == (a@ == b@),
{
    let alen = a.unicode_len();
    let blen = b.unicode_len();
    if alen != blen {
        return false;
    }
    let mut i: usize = 0;
    while i < alen
        invariant
            i <= alen,
            alen == a@.len(),
            alen == b@.len(),
            forall|j: int| 0 <= j < i ==> a@[j] == b@[j],
        decreases alen - i,
    {
        if a.get_char(i) != b.get_char(i) {
            return false;
        }
        i += 1;
    }
    proof {
        assert(a@ =~= b@);
    }
    true
}

/// An album manifest: a title and an ordered list of records. Immutable once
/// constructed; diffing and rendering never change it.
pub struct Album {
    pub title: String,
    pub songs: Vec<Entry>,
}

/// The mathematical shape of an album: the title and the records as sequences
/// of characters.
pub struct AlbumView {
    pub title: Seq<char>,
    pub songs: Seq<(Seq<char>, Seq<char>)>,
}

impl View for Album {
    type V = AlbumView;

    open spec fn view(&self) -> AlbumView {
        AlbumView { title: self.title@, songs: self.songs.deep_view() }
    }
}

/// The text a record renders to: `key=value` and a closing newline.
pub open spec fn spec_render_entry(e: (Seq<char>, Seq<char>)) -> Seq<char> {
    e.0 + seq!['='] + e.1 + seq!['\n']
}

/// The text a record list renders to, records in their original order.
pub open spec fn spec_render(entries: Seq<(Seq<char>, Seq<char>)>) -> Seq<char>
    decreases entries.len(),
{
    if entries.len() == 0 {
        Seq::empty()
    } else {
        spec_render_entry(entries[0]) + spec_render(entries.drop_first())
    }
}

pub proof fn lemma_render_concat(a: Seq<(Seq<char>, Seq<char>)>, b: Seq<(Seq<char>, Seq<char>)>)
    ensures
        spec_render(a + b) == spec_render(a) + spec_render(b),
    decreases a.len(),
{
    if a.len() == 0 {
        assert(a + b =~= b);
        assert(spec_render(a) + spec_render(b) =~= spec_render(b));
    } else {
        assert((a + b).len() != 0 && (a + b)[0] == a[0]);
        assert((a + b).drop_first() =~= a.drop_first() + b);
        lemma_render_concat(a.drop_first(), b);
        assert(spec_render(a + b) =~= spec_render(a) + spec_render(b));
    }
}

/// First-match lookup of `key` among the records: the identifier of the first
/// record whose key is `key`; later records under the same key are unreachable.
pub open spec fn spec_lookup(
    songs: Seq<(Seq<char>, Seq<char>)>,
    key: Seq<char>,
) -> Option<Seq<char>>
    decreases songs.len(),
{
    if songs.len() == 0 {
        None
    } else if songs[0].0 == key {
        Some(songs[0].1)
    } else {
        spec_lookup(songs.drop_first(), key)
    }
}

impl Album {
    /// Whether two manifests name the same album.
    pub fn same_ident(&self, oth: &Album) -> (r: bool)
        ensures
            r == (self@.title == oth@.title),
    {
        self.title == oth.title
    }

    /// First-match lookup: the identifier recorded under `key`, if any.
    pub fn contains<'a>(&'a self, key: &str) -> (found: Option<&'a str>)
        ensures
            found.deep_view() == spec_lookup(self@.songs, key@),
    {
        let ghost sv = self@.songs;
        let mut i: usize = 0;
        proof {
            assert(sv.skip(0) =~= sv);
        }
        while i < self.songs.len()
            invariant
                i <= self.songs.len(),
                sv == self@.songs,
                sv.len() == self.songs.len(),
                spec_lookup(sv, key@) == spec_lookup(sv.skip(i as int), key@),
            decreases self.songs.len() - i,
        {
            proof {
                assert(sv.skip(i as int)[0] == sv[i as int]);
                assert(sv[i as int] == (self.songs@[i as int].0@, self.songs@[i as int].1@));
                assert(sv.skip(i as int).drop_first() =~= sv.skip(i as int + 1));
            }
            if str_eq(self.songs[i].0.as_str(), key) {
                return Some(self.songs[i].1.as_str());
            }
            i += 1;
        }
        proof {
            assert(sv.skip(sv.len() as int) =~= Seq::<(Seq<char>, Seq<char>)>::empty());
        }
        None
    }

    /// Writes the records back out as text, one `key=value` line per record,
    /// in their original order.
    pub fn render(&self) -> (text: String)
        ensures
            text@ == spec_render(self@.songs),
    {
        let ghost sv = self@.songs;
        let mut buff = String::new();
        let mut i: usize = 0;
        proof {
            assert(sv.take(0) =~= Seq::<(Seq<char>, Seq<char>)>::empty());
        }
        while i < self.songs.len()
            invariant
                i <= self.songs.len(),
                sv == self@.songs,
                sv.len() == self.songs.len(),
                buff@ == spec_render(sv.take(i as int)),
            decreases self.songs.len() - i,
        {
            buff.append(self.songs[i].0.as_str());
            buff.append("=");
            buff.append(self.songs[i].1.as_str());
            buff.append("\n");
            proof {
                reveal_strlit("=");
                reveal_strlit("\n");
                assert(sv[i as int] == (self.songs@[i as int].0@, self.songs@[i as int].1@));
                assert("="@ =~= seq!['=']);
                assert("\n"@ =~= seq!['\n']);
                lemma_render_concat(sv.take(i as int), seq![sv[i as int]]);
                assert(sv.take(i as int + 1) =~= sv.take(i as int) + seq![sv[i as int]]);
                assert(seq![sv[i as int]].drop_first() =~= Seq::<(Seq<char>, Seq<char>)>::empty());
                assert(spec_render(Seq::<(Seq<char>, Seq<char>)>::empty()) == Seq::<char>::empty());
                assert(spec_render_entry(sv[i as int]) + Seq::<char>::empty() =~= spec_render_entry(
                    sv[i as int],
                ));
                assert(spec_render(seq![sv[i as int]]) =~= spec_render_entry(sv[i as int]));
                assert(buff@ =~= spec_render(sv.take(i as int + 1)));
            }
            i += 1;
        }
        proof {
            assert(sv.take(sv.len() as int) =~= sv);
        }
        buff
    }
}

/// The album title a manifest file's name carries: everything before the first
/// `.`, or the whole name when it has none.
pub open spec fn spec_title(name: Seq<char>) -> Seq<char> {
    name.take(find_char(name, '.'))
}

/// Cuts a file name down to the album title it names.
pub fn title_from_filename(name: &str) -> (title: String)
    ensures
        title@ == spec_title(name@),
{
    let len = name.unicode_len();
    let mut k: usize = 0;
    while k < len && name.get_char(k) != '.'
        invariant
            k <= len,
            len == name@.len(),
            forall|m: int| 0 <= m < k ==> name@[m] != '.',
        decreases len - k,
    {
        k += 1;
    }
    proof {
        lemma_find_char_at(name@, '.', k as int);
        assert(name@.subrange(0, k as int) =~= name@.take(k as int));
    }
    name.substring_char(0, k).to_owned()
}

/// Builds the manifest an album text describes, under the given title.
pub fn album_from_text(title: String, text: &str) -> (album: Album)
    ensures
        album@.title == title@,
        album@.songs == spec_parse(text@),
{
    Album { title, songs: from_album_source(text) }
}

/// A record that the text format can carry faithfully: no `=` or newline in
/// its key, no `=` or newline in its identifier.
pub open spec fn entry_wf(e: (Seq<char>, Seq<char>)) -> bool {
    &&& !e.0.contains('=')
    &&& !e.0.contains('\n')
    &&& !e.1.contains('=')
    &&& !e.1.contains('\n')
}

pub open spec fn entries_wf(entries: Seq<(Seq<char>, Seq<char>)>) -> bool {
    forall|i: int| 0 <= i < entries.len() ==> entry_wf(#[trigger] entries[i])
}

/// Round trip: rendering a record list and parsing the text back returns the
/// records unchanged, for records the format can carry.
pub proof fn lemma_parse_render(entries: Seq<(Seq<char>, Seq<char>)>)
    requires
        entries_wf(entries),
    ensures
        spec_parse(spec_render(entries)) == entries,
    decreases entries.len(),
{
    if entries.len() == 0 {
    } else {
        let e = entries[0];
        assert(entry_wf(e));
        let head = spec_render_entry(e);
        let rest = spec_render(entries.drop_first());
        let s = head + rest;
        assert(spec_render(entries) == s);
        let klen = e.0.len() as int;
        let nl = klen + 1 + e.1.len();
        assert(s.len() == nl + 1 + rest.len());
        assert forall|j: int| 0 <= j < nl implies s[j] != '\n' by {
            if j < klen {
                assert(s[j] == e.0[j]);
            } else if j == klen {
                assert(s[j] == '=');
            } else {
                assert(s[j] == e.1[j - klen - 1]);
            }
        }
        assert(s[nl] == '\n');
        lemma_find_char_at(s, '\n', nl);
        let line = s.take(nl);
        assert forall|j: int| 0 <= j < klen implies line[j] != '=' by {
            assert(line[j] == e.0[j]);
        }
        assert(line[klen] == '=');
        lemma_find_char_at(line, '=', klen);
        assert(line.take(klen) =~= e.0);
        assert(line.skip(klen + 1) =~= e.1);
        assert(spec_parse_line(line) == Some((e.0, e.1)));
        assert((e.0, e.1) == e);
        assert(s.skip(nl + 1) =~= rest);
        lemma_parse_render(entries.drop_first());
        assert(spec_parse(s) == seq![e] + entries.drop_first());
        assert(seq![e] + entries.drop_first() =~= entries);
    }
}

} // verus!
