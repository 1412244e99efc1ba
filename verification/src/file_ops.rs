//! The computing half of the file commands: which walked entries the
//! file list shows, and how a listing printed by a version-control
//! tool is parsed into file metadata.  Reading directories and running
//! the tool are the embedding application's work.

use vstd::prelude::*;

verus! {

/// What the editor is told about one file.
pub struct FileMetadata {
    pub path: String,
    pub name: String,
    pub language: Option<String>,
}

/// The mathematical value of a [`FileMetadata`].
pub struct FileMetadataView {
    pub path: Seq<char>,
    pub name: Seq<char>,
    pub language: Option<Seq<char>>,
}

impl View for FileMetadata {
    type V = FileMetadataView;

    open spec fn view(&self) -> FileMetadataView {
        FileMetadataView { path: self.path@, name: self.name@, language: self.language.deep_view() }
    }
}

/// One directory entry as the walk reports it.
pub struct WalkedEntry {
    pub path: String,
    pub name: String,
    pub is_file: bool,
}

/// The mathematical value of a [`WalkedEntry`].
pub struct WalkedEntryView {
    pub path: Seq<char>,
    pub name: Seq<char>,
    pub is_file: bool,
}

impl View for WalkedEntry {
    type V = WalkedEntryView;

    open spec fn view(&self) -> WalkedEntryView {
        WalkedEntryView { path: self.path@, name: self.name@, is_file: self.is_file }
    }
}

/// The mathematical values of a sequence of metadata records.
pub open spec fn file_views(files: Seq<FileMetadata>) -> Seq<FileMetadataView> {
    files.map_values(|f: FileMetadata| f@)
}

/// The metadata the file list shows for the walked entries: the
/// files among them, in walk order, at most `cap` of them, none with
/// a detected language.
pub open spec fn selected_files(entries: Seq<WalkedEntryView>, cap: nat) -> Seq<FileMetadataView>
    decreases entries.len(),
{
    if entries.len() == 0 || cap == 0 {
        Seq::empty()
    } else if entries[0].is_file {
        seq![
            (FileMetadataView { path: entries[0].path, name: entries[0].name, language: None }),
        ] + selected_files(entries.drop_first(), (cap - 1) as nat)
    } else {
        selected_files(entries.drop_first(), cap)
    }
}

/// How many entries the file list shows at most.
pub const FILE_LIST_CAP: usize = 100;

/// The file list for the walked entries, in walk order: regular files
/// only, capped, no language detection.
pub fn list_files(entries: &Vec<WalkedEntry>) -> (r: Vec<FileMetadata>)
    ensures
        file_views(r@) == selected_files(
            entries@.map_values(|e: WalkedEntry| e@),
            FILE_LIST_CAP as nat,
        ),
{
    let ghost ev = entries@.map_values(|e: WalkedEntry| e@);
    let mut r: Vec<FileMetadata> = Vec::new();
    let n = entries.len();
    let mut i: usize = 0;
    proof {
        assert(file_views(r@) =~= Seq::<FileMetadataView>::empty());
        assert(ev.skip(0) =~= ev);
        assert(Seq::<FileMetadataView>::empty() + selected_files(ev, FILE_LIST_CAP as nat)
            =~= selected_files(ev, FILE_LIST_CAP as nat));
    }
    while i < n && r.len() < FILE_LIST_CAP
        invariant
            i <= n,
            n == ev.len(),
            ev == entries@.map_values(|e: WalkedEntry| e@),
            r@.len() <= FILE_LIST_CAP,
            selected_files(ev, FILE_LIST_CAP as nat) == file_views(r@) + selected_files(
                ev.skip(i as int),
                (FILE_LIST_CAP - r@.len()) as nat,
            ),
        decreases n - i,
    {
        let ghost r0 = r@;
        let ghost cap0 = (FILE_LIST_CAP - r@.len()) as nat;
        proof {
            assert(ev.skip(i as int)[0] == ev[i as int]);
            assert(ev.skip(i as int).drop_first() =~= ev.skip(i + 1 as int));
            assert(ev[i as int] == entries@[i as int]@);
        }
        if entries[i].is_file {
            r.push(
                FileMetadata {
                    path: entries[i].path.clone(),
                    name: entries[i].name.clone(),
                    language: None,
                },
            );
            proof {
                assert(file_views(r@) =~= file_views(r0).push(
                    FileMetadataView {
                        path: ev[i as int].path,
                        name: ev[i as int].name,
                        language: None,
                    },
                ));
                assert(selected_files(ev.skip(i as int), cap0) == seq![
                    (FileMetadataView {
                        path: ev[i as int].path,
                        name: ev[i as int].name,
                        language: None,
                    }),
                ] + selected_files(ev.skip(i + 1 as int), (cap0 - 1) as nat));
                assert(file_views(r@) + selected_files(
                    ev.skip(i + 1 as int),
                    (FILE_LIST_CAP - r@.len()) as nat,
                ) =~= file_views(r0) + selected_files(ev.skip(i as int), cap0));
            }
        } else {
            proof {
                assert(selected_files(ev.skip(i as int), cap0) == selected_files(
                    ev.skip(i + 1 as int),
                    cap0,
                ));
            }
        }
        i += 1;
    }
    proof {
        if i == n {
            assert(ev.skip(i as int) =~= Seq::<WalkedEntryView>::empty());
            assert(selected_files(ev.skip(i as int), (FILE_LIST_CAP - r@.len()) as nat)
                == Seq::<FileMetadataView>::empty());
        } else {
            assert(r@.len() == FILE_LIST_CAP);
            assert(selected_files(ev.skip(i as int), (FILE_LIST_CAP - r@.len()) as nat)
                == Seq::<FileMetadataView>::empty());
        }
        assert(file_views(r@) + Seq::<FileMetadataView>::empty() =~= file_views(r@));
    }
    r
}

/// One trailing carriage return stripped: the text of a line that a
/// line feed ended.
pub open spec fn strip_return(l: Seq<char>) -> Seq<char> {
    if l.len() > 0 && l.last() == '\r' {
        l.drop_last()
    } else {
        l
    }
}

/// The lines that scanning `s` yields with `acc` already gathered:
/// split at line feeds, one carriage return before each line feed
/// dropped, a final unterminated line kept as it stands, and no empty
/// line after a final terminator.
pub open spec fn text_lines_from(acc: Seq<char>, s: Seq<char>) -> Seq<Seq<char>>
    decreases s.len(),
{
    if s.len() == 0 {
        if acc.len() == 0 {
            Seq::empty()
        } else {
            seq![acc]
        }
    } else if s[0] == '\n' {
        seq![strip_return(acc)] + text_lines_from(Seq::empty(), s.drop_first())
    } else {
        text_lines_from(acc.push(s[0]), s.drop_first())
    }
}

/// The lines of a text, as a line-based tool prints them.
pub open spec fn text_lines(s: Seq<char>) -> Seq<Seq<char>> {
    text_lines_from(Seq::empty(), s)
}

/// What follows the last separator of a path; empty when the path ends
/// with a separator, the whole path when it holds none.
pub open spec fn suffix_after_slash(p: Seq<char>) -> Seq<char>
    decreases p.len(),
{
    if p.len() == 0 {
        p
    } else if p.last() == '/' {
        Seq::empty()
    } else {
        suffix_after_slash(p.drop_last()).push(p.last())
    }
}

/// The name under which a listed path is shown: what follows its last
/// separator, or the whole path where that is empty.
pub open spec fn base_name(p: Seq<char>) -> Seq<char> {
    if suffix_after_slash(p).len() == 0 {
        p
    } else {
        suffix_after_slash(p)
    }
}

/// When nothing from position `k` on is a separator, and a separator
/// stands just before `k` (or `k` opens the path), the suffix after
/// the last separator is exactly the part from `k` on.
proof fn lemma_suffix_after_slash(p: Seq<char>, k: int)
    requires
        0 <= k <= p.len(),
        forall|j: int| k <= j < p.len() ==> p[j] != '/',
        k > 0 ==> p[k - 1] == '/',
    ensures
        suffix_after_slash(p) == p.subrange(k, p.len() as int),
    decreases p.len(),
{
    if k == p.len() {
        assert(suffix_after_slash(p) =~= p.subrange(k, p.len() as int));
    } else {
        assert(p.last() != '/');
        lemma_suffix_after_slash(p.drop_last(), k);
        assert(suffix_after_slash(p) =~= p.subrange(k, p.len() as int));
    }
}

/// The file name of a path, for showing a listed file.
fn base_name_of(path: &str) -> (r: String)
    ensures
        r@ == base_name(path@),
{
    let n = path.unicode_len();
    let mut name_start: usize = 0;
    let mut idx: usize = 0;
    while idx < n
        invariant
            idx <= n,
            n == path@.len(),
            name_start <= idx,
            name_start > 0 ==> path@[name_start - 1] == '/',
            forall|j: int| name_start <= j < idx ==> path@[j] != '/',
        decreases n - idx,
    {
        if path.get_char(idx) == '/' {
            name_start = idx + 1;
        }
        idx += 1;
    }
    proof {
        lemma_suffix_after_slash(path@, name_start as int);
    }
    if name_start == n {
        proof {
            assert(path@.subrange(name_start as int, n as int) =~= Seq::<char>::empty());
        }
        String::from_str(path)
    } else {
        let name = path.substring_char(name_start, n);
        String::from_str(name)
    }
}

/// How many lines of the tool's listing are taken.
pub const GIT_LIST_CAP: usize = 100;

/// Parse the listing that a line-based file enumeration prints: one
/// metadata record per line of the listing, in order, at most
/// [`GIT_LIST_CAP`] of them; each line is a path, shown under its file
/// name, with no language detected.
#[verifier::rlimit(60)]
pub fn list_git_files(listing: &str) -> (r: Vec<FileMetadata>)
    ensures
        r@.len() == if text_lines(listing@).len() < GIT_LIST_CAP as int {
            text_lines(listing@).len() as int
        } else {
            GIT_LIST_CAP as int
        },
        forall|k: int| 0 <= k < r@.len() ==> r@[k]@.path == text_lines(listing@)[k],
        forall|k: int|
            0 <= k < r@.len() ==> r@[k]@.name == base_name(text_lines(listing@)[k]),
        forall|k: int| 0 <= k < r@.len() ==> (r@[k]@.language is None),
{
    let ghost sv = listing@;
    let ghost ls = text_lines(sv);
    let n = listing.unicode_len();
    let mut r: Vec<FileMetadata> = Vec::new();
    let ghost mut taken: Seq<Seq<char>> = Seq::empty();
    let mut start: usize = 0;
    let mut i: usize = 0;
    proof {
        assert(sv.subrange(0, 0) =~= Seq::<char>::empty());
        assert(sv.skip(0) =~= sv);
        assert(taken + text_lines_from(Seq::empty(), sv) =~~= text_lines_from(Seq::empty(), sv));
    }
    while i < n && r.len() < GIT_LIST_CAP
        invariant
            start <= i <= n,
            n == sv.len(),
            sv == listing@,
            ls == text_lines(sv),
            r@.len() == taken.len(),
            taken.len() <= GIT_LIST_CAP,
            ls == taken + text_lines_from(
                sv.subrange(start as int, i as int),
                sv.skip(i as int),
            ),
            forall|k: int|
                0 <= k < taken.len() ==> r@[k]@.path == taken[k] && r@[k]@.name == base_name(
                    taken[k],
                ) && (r@[k]@.language is None),
        decreases n - i,
    {
        let ghost acc = sv.subrange(start as int, i as int);
        proof {
            assert(sv.skip(i as int)[0] == sv[i as int]);
            assert(sv.skip(i as int).drop_first() =~= sv.skip(i + 1 as int));
        }
        let c = listing.get_char(i);
        if c == '\n' {
            let end = if i > start && listing.get_char(i - 1) == '\r' {
                i - 1
            } else {
                i
            };
            proof {
                if i > start && sv[i - 1] == '\r' {
                    assert(acc.last() == sv[i - 1]);
                    assert(acc.drop_last() =~= sv.subrange(start as int, i - 1));
                }
                assert(sv.subrange(end as int, end as int).len() == 0);
            }
            let line = listing.substring_char(start, end);
            proof {
                assert(line@ == strip_return(acc));
            }
            let path_s = String::from_str(line);
            let name_s = base_name_of(line);
            let ghost taken0 = taken;
            let ghost r0 = r@;
            r.push(FileMetadata { path: path_s, name: name_s, language: None });
            proof {
                taken = taken.push(line@);
                assert(text_lines_from(acc, sv.skip(i as int)) == seq![strip_return(acc)]
                    + text_lines_from(Seq::empty(), sv.skip(i + 1 as int)));
                assert(taken0 + text_lines_from(acc, sv.skip(i as int)) =~~= taken
                    + text_lines_from(Seq::empty(), sv.skip(i + 1 as int)));
                assert(sv.subrange(i + 1 as int, i + 1 as int) =~= Seq::<char>::empty());
                assert forall|k: int|
                    0 <= k < taken.len() implies r@[k]@.path == taken[k] && r@[k]@.name
                    == base_name(taken[k]) && (r@[k]@.language is None) by {
                    if k < taken0.len() {
                        assert(r@[k] == r0[k]);
                        assert(taken[k] == taken0[k]);
                    } else {
                        assert(r@[k] == r@.last());
                        assert(taken[k] == line@);
                    }
                }
            }
            start = i + 1;
        } else {
            proof {
                assert(sv.subrange(start as int, i + 1 as int) =~= acc.push(sv[i as int]));
                assert(text_lines_from(acc, sv.skip(i as int)) == text_lines_from(
                    acc.push(sv[i as int]),
                    sv.skip(i + 1 as int),
                ));
            }
        }
        i += 1;
    }
    let ghost acc = sv.subrange(start as int, i as int);
    if start < n && r.len() < GIT_LIST_CAP {
        proof {
            assert(i == n);
            assert(sv.skip(i as int) =~= Seq::<char>::empty());
            assert(acc.len() > 0);
            assert(text_lines_from(acc, sv.skip(i as int)) == seq![acc]);
        }
        let line = listing.substring_char(start, n);
        let path_s = String::from_str(line);
        let name_s = base_name_of(line);
        let ghost taken0 = taken;
        let ghost r0 = r@;
        r.push(FileMetadata { path: path_s, name: name_s, language: None });
        proof {
            taken = taken.push(line@);
            assert(ls =~~= taken);
            assert forall|k: int|
                0 <= k < taken.len() implies r@[k]@.path == taken[k] && r@[k]@.name == base_name(
                taken[k],
            ) && (r@[k]@.language is None) by {
                if k < taken0.len() {
                    assert(r@[k] == r0[k]);
                    assert(taken[k] == taken0[k]);
                } else {
                    assert(r@[k] == r@.last());
                    assert(taken[k] == line@);
                }
            }
        }
    } else {
        proof {
            if r@.len() < GIT_LIST_CAP {
                assert(i == n);
                assert(start == n);
                assert(sv.skip(i as int) =~= Seq::<char>::empty());
                assert(acc.len() == 0);
                assert(text_lines_from(acc, sv.skip(i as int)) == Seq::<Seq<char>>::empty());
                assert(ls =~~= taken);
            } else {
                assert(ls.len() >= taken.len());
            }
        }
    }
    proof {
        assert forall|k: int| 0 <= k < r@.len() implies r@[k]@.path == text_lines(
            listing@,
        )[k] by {
            assert(ls[k] == taken[k]);
            assert(r@[k]@.path == taken[k]);
        }
        assert forall|k: int| 0 <= k < r@.len() implies r@[k]@.name == base_name(
            text_lines(listing@)[k],
        ) by {
            assert(ls[k] == taken[k]);
            assert(r@[k]@.name == base_name(taken[k]));
        }
        assert forall|k: int| 0 <= k < r@.len() implies (r@[k]@.language is None) by {
            assert(r@[k]@.path == taken[k]);
            assert(r@[k]@.language is None);
        }
    }
    r
}

/// What follows the last dot of a file name; empty when the name ends
/// with a dot, the whole name when it holds none.
pub open spec fn suffix_after_dot(name: Seq<char>) -> Seq<char>
    decreases name.len(),
{
    if name.len() == 0 {
        name
    } else if name.last() == '.' {
        Seq::empty()
    } else {
        suffix_after_dot(name.drop_last()).push(name.last())
    }
}

/// When nothing from position `k` on is a dot, and a dot stands just
/// before `k` (or `k` opens the name), the suffix after the last dot
/// is exactly the part from `k` on.
proof fn lemma_suffix_after_dot(name: Seq<char>, k: int)
    requires
        0 <= k <= name.len(),
        forall|j: int| k <= j < name.len() ==> name[j] != '.',
        k > 0 ==> name[k - 1] == '.',
    ensures
        suffix_after_dot(name) == name.subrange(k, name.len() as int),
    decreases name.len(),
{
    if k == name.len() {
        assert(suffix_after_dot(name) =~= name.subrange(k, name.len() as int));
    } else {
        assert(name.last() != '.');
        lemma_suffix_after_dot(name.drop_last(), k);
        assert(suffix_after_dot(name) =~= name.subrange(k, name.len() as int));
    }
}

/// The stem of a file name: what stands before its extension, where an
/// extension is a dot-suffix whose dot is neither the name's first
/// character nor absent; the whole name otherwise.
pub open spec fn name_stem(name: Seq<char>) -> Seq<char> {
    let ext = suffix_after_dot(name);
    if ext.len() < name.len() && name.len() - ext.len() - 1 > 0 {
        name.take(name.len() - ext.len() - 1)
    } else {
        name
    }
}

/// The path a safe save writes to first: the saved path with the
/// extension of its final component replaced by the temporary marker.
/// The rule is textual, over `/`-separated paths: the component after
/// the last separator loses its extension, if it has one, and the
/// marker is appended.
pub open spec fn temp_path(p: Seq<char>) -> Seq<char> {
    let name = suffix_after_slash(p);
    p.take(p.len() - name.len()) + name_stem(name) + ".tmp~"@
}

/// The path to write a file's new content to before moving it into
/// place.
pub fn temp_path_for(path: &str) -> (r: String)
    ensures
        r@ == temp_path(path@),
{
    let n = path.unicode_len();
    let mut name_start: usize = 0;
    let mut dot_pos: usize = 0;
    let mut has_dot = false;
    let mut idx: usize = 0;
    while idx < n
        invariant
            idx <= n,
            n == path@.len(),
            name_start <= idx,
            name_start > 0 ==> path@[name_start - 1] == '/',
            forall|j: int| name_start <= j < idx ==> path@[j] != '/',
            has_dot ==> name_start <= dot_pos < idx && path@[dot_pos as int] == '.',
            has_dot ==> forall|j: int| dot_pos < j < idx ==> path@[j] != '.',
            !has_dot ==> forall|j: int| name_start <= j < idx ==> path@[j] != '.',
        decreases n - idx,
    {
        let c = path.get_char(idx);
        if c == '/' {
            name_start = idx + 1;
            has_dot = false;
        } else if c == '.' {
            dot_pos = idx;
            has_dot = true;
        }
        idx += 1;
    }
    let ghost name = suffix_after_slash(path@);
    proof {
        lemma_suffix_after_slash(path@, name_start as int);
        assert(name == path@.subrange(name_start as int, n as int));
        if has_dot {
            lemma_suffix_after_dot(name, dot_pos + 1 - name_start as int);
        } else {
            lemma_suffix_after_dot(name, 0);
            assert(name.subrange(0, name.len() as int) =~= name);
        }
    }
    let stem_end = if has_dot && dot_pos > name_start {
        dot_pos
    } else {
        n
    };
    proof {
        let ext = suffix_after_dot(name);
        if has_dot && dot_pos > name_start {
            assert(ext.len() == n - (dot_pos + 1));
            assert(name.len() - ext.len() - 1 == dot_pos - name_start);
            assert(name_stem(name) == name.take(dot_pos - name_start as int));
            assert(path@.take(name_start as int) + name.take(dot_pos - name_start as int)
                =~= path@.take(dot_pos as int));
        } else {
            if has_dot {
                assert(name.len() - ext.len() - 1 == dot_pos - name_start);
                assert(name_stem(name) == name);
            } else {
                assert(ext == name);
                assert(name_stem(name) == name);
            }
            assert(path@.take(name_start as int) + name =~= path@.take(n as int));
            assert(path@.take(n as int) =~= path@);
        }
        assert(path@.take(path@.len() - name.len()) + name_stem(name) =~= path@.take(
            stem_end as int,
        ));
    }
    let stem = path.substring_char(0, stem_end);
    let mut r = String::from_str(stem);
    r.append(".tmp~");
    proof {
        assert(r@ =~= temp_path(path@));
    }
    r
}

} // verus!
