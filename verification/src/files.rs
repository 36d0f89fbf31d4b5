//! Media files: how a path is classified, and the set of files a run works on.

use crate::text::joined;
use vstd::hash_map::StringHashMap;
use vstd::prelude::*;
use vstd::string::{StrSliceExecFns, StringExecFns, StringSliceAdditionalSpecFns};
use vstd::utf8::{decode_utf8, encode_utf8};

verus! {

/// What a recognized media file holds.
#[derive(Clone, Copy, Debug, PartialEq, Eq, Structural)]
pub enum MediaKind {
    Image,
    Video,
}

/// The byte of the dot.
pub const DOT: u8 = 0x2e;

/// The byte of the slash.
pub const SLASH: u8 = 0x2f;

/// The byte of the backslash.
pub const BACKSLASH: u8 = 0x5c;

/// The number of the capital letter A.
pub const UPPER_A: u32 = 0x41;

/// The number of the capital letter Z.
pub const UPPER_Z: u32 = 0x5a;

/// How far the number of a small letter lies from that of its capital.
pub const CASE_GAP: u32 = 0x20;

/// The number of the Kelvin sign, whose lower case is the letter k.
pub const KELVIN_SIGN: u32 = 0x212a;

/// The number of the small letter k.
pub const SMALL_K: u32 = 0x6b;

/// `/` and `\` both end a path component.
pub open spec fn is_separator(b: u8) -> bool {
    b == SLASH || b == BACKSLASH
}

/// Position `i` holds the dot that starts the extension: the last dot of the
/// final component, and not that component's first byte.
pub open spec fn is_extension_dot(path: Seq<u8>, i: int) -> bool {
    &&& 0 < i < path.len()
    &&& path[i] == DOT
    &&& !is_separator(path[i - 1])
    &&& forall|j: int| i < j < path.len() ==> is_name_byte(#[trigger] path[j])
}

/// A byte that is neither a dot nor a separator.
pub open spec fn is_name_byte(b: u8) -> bool {
    b != DOT && !is_separator(b)
}

/// The final component of `path` has an extension.
pub open spec fn has_extension(path: Seq<u8>) -> bool {
    exists|i: int| is_extension_dot(path, i)
}

/// The bytes after the extension dot, where the path has one.
pub open spec fn extension(path: Seq<u8>) -> Option<Seq<u8>> {
    if has_extension(path) {
        let i = choose|i: int| is_extension_dot(path, i);
        Some(path.subrange(i + 1, path.len() as int))
    } else {
        None
    }
}

/// The number of the character that `c` is in lower case, as far as that
/// matters for a word of ASCII letters and digits: a capital letter from A
/// to Z becomes its small letter and the Kelvin sign becomes k. No other
/// character is ASCII text in lower case without being so already, so each
/// of them stands for itself here.
pub open spec fn lower_code(c: char) -> u32 {
    let code = c as u32;
    if UPPER_A <= code <= UPPER_Z {
        (code + CASE_GAP) as u32
    } else if code == KELVIN_SIGN {
        SMALL_K
    } else {
        code
    }
}

/// `ext` in lower case is the word `word`, which holds ASCII letters and
/// digits only.
pub open spec fn is_word(ext: Seq<char>, word: Seq<char>) -> bool {
    ext.len() == word.len() && forall|i: int|
        0 <= i < ext.len() ==> lower_code(#[trigger] ext[i]) == word[i] as u32
}

/// The kind that an extension stands for: a picture for `jpg`, `jpeg` and
/// `png`, a video for `mp4`, `avi`, `mkv` and `mov`, each compared with the
/// extension in lower case.
pub open spec fn kind_of_extension(ext: Seq<char>) -> Option<MediaKind> {
    if is_word(ext, "jpg"@) || is_word(ext, "jpeg"@) || is_word(ext, "png"@) {
        Some(MediaKind::Image)
    } else if is_word(ext, "mp4"@) || is_word(ext, "avi"@) || is_word(ext, "mkv"@) || is_word(
        ext,
        "mov"@,
    ) {
        Some(MediaKind::Video)
    } else {
        None
    }
}

/// The kind of the file at `path`, given as the bytes of the path.
pub open spec fn media_kind_of(path: Seq<u8>) -> Option<MediaKind> {
    match extension(path) {
        Some(ext) => kind_of_extension(decode_utf8(ext)),
        None => None,
    }
}

/// The kind of the file whose path is the text `path`.
pub open spec fn path_kind(path: Seq<char>) -> Option<MediaKind> {
    media_kind_of(encode_utf8(path))
}

/// A path has at most one extension dot.
pub proof fn lemma_extension_dot_unique(path: Seq<u8>, i: int, j: int)
    requires
        is_extension_dot(path, i),
        is_extension_dot(path, j),
    ensures
        i == j,
{
}

fn is_separator_byte(b: u8) -> (r: bool)
    ensures
        r == is_separator(b),
{
    b == SLASH || b == BACKSLASH
}

fn lower(c: char) -> (r: u32)
    ensures
        r == lower_code(c),
{
    let code = c as u32;
    if UPPER_A <= code && code <= UPPER_Z {
        code + CASE_GAP
    } else if code == KELVIN_SIGN {
        SMALL_K
    } else {
        code
    }
}

/// Where the extension of `path` starts: the index after its extension dot.
pub fn extension_start(path: &[u8]) -> (r: Option<usize>)
    ensures
        match r {
            Some(s) => 0 < s <= path@.len() && is_extension_dot(path@, s - 1) && extension(path@)
                == Some(path@.subrange(s as int, path@.len() as int)),
            None => extension(path@) is None,
        },
{
    let mut i: usize = path.len();
    while i > 0
        invariant
            i <= path@.len(),
            forall|j: int| i <= j < path@.len() ==> is_name_byte(#[trigger] path@[j]),
        decreases i,
    {
        let c = path[i - 1];
        if c == DOT {
            if i >= 2 && !is_separator_byte(path[i - 2]) {
                proof {
                    let d = i as int - 1;
                    assert(is_extension_dot(path@, d));
                    let w = choose|k: int| is_extension_dot(path@, k);
                    lemma_extension_dot_unique(path@, d, w);
                }
                return Some(i);
            }
            proof {
                lemma_no_extension_behind(path@, i as int - 1);
            }
            return None;
        }
        if is_separator_byte(c) {
            proof {
                lemma_no_extension_behind(path@, i as int - 1);
            }
            return None;
        }
        i = i - 1;
    }
    proof {
        assert forall|k: int| !is_extension_dot(path@, k) by {
        }
    }
    None
}

/// A dot or separator at `p` that starts no extension, with only name bytes
/// after it, leaves the path without an extension.
proof fn lemma_no_extension_behind(path: Seq<u8>, p: int)
    requires
        0 <= p < path.len(),
        !is_name_byte(path[p]),
        !is_extension_dot(path, p),
        forall|j: int| p < j < path.len() ==> is_name_byte(#[trigger] path[j]),
    ensures
        extension(path) is None,
{
    assert forall|k: int| !is_extension_dot(path, k) by {
    }
}

/// Whether the bytes of `path` from `start` on are those of `word`.
pub fn ends_in_word(path: &[u8], start: usize, word: &str) -> (r: bool)
    requires
        start <= path@.len(),
    ensures
        r == (path@.subrange(start as int, path@.len() as int) == encode_utf8(word@)),
{
    let letters = word.as_bytes();
    let ghost ext = path@.subrange(start as int, path@.len() as int);
    if path.len() - start != letters.len() {
        return false;
    }
    let mut i: usize = 0;
    while i < letters.len()
        invariant
            i <= letters@.len(),
            start + letters@.len() == path@.len(),
            path@.len() <= usize::MAX,
            letters@ == encode_utf8(word@),
            ext == path@.subrange(start as int, path@.len() as int),
            forall|j: int| 0 <= j < i ==> ext[j] == letters@[j],
        decreases letters@.len() - i,
    {
        if path[start + i] != letters[i] {
            return false;
        }
        i = i + 1;
    }
    proof {
        assert(ext =~= letters@);
    }
    true
}

/// Whether `ext` in lower case is `word`.
fn is_word_text(ext: &str, word: &str) -> (r: bool)
    ensures
        r == is_word(ext@, word@),
{
    let n = word.unicode_len();
    if ext.unicode_len() != n {
        return false;
    }
    let mut i: usize = 0;
    while i < n
        invariant
            i <= n,
            n == word@.len(),
            n == ext@.len(),
            forall|j: int| 0 <= j < i ==> lower_code(#[trigger] ext@[j]) == word@[j] as u32,
        decreases n - i,
    {
        if lower(ext.get_char(i)) != word.get_char(i) as u32 {
            return false;
        }
        i = i + 1;
    }
    true
}

/// The kind that the extension `ext` stands for.
fn classify_extension(ext: &str) -> (r: Option<MediaKind>)
    ensures
        r == kind_of_extension(ext@),
{
    if is_word_text(ext, "jpg") || is_word_text(ext, "jpeg") || is_word_text(ext, "png") {
        Some(MediaKind::Image)
    } else if is_word_text(ext, "mp4") || is_word_text(ext, "avi") || is_word_text(ext, "mkv")
        || is_word_text(ext, "mov") {
        Some(MediaKind::Video)
    } else {
        None
    }
}

/// The kind of the media file at `path`: image for `jpg`, `jpeg`, `png`; video
/// for `mp4`, `avi`, `mkv`, `mov`; the extension compared in lower case. It
/// is `None` where the extension is none of these.
pub fn media_kind(path: &str) -> (r: Option<MediaKind>)
    ensures
        r == path_kind(path@),
{
    match extension_text(path) {
        Some(ext) => {
            proof {
                vstd::utf8::encode_utf8_decode_utf8(ext@);
            }
            classify_extension(ext)
        },
        None => None,
    }
}

/// One media file of a run. `file_path` is where the file lies; `tmp_path` is
/// where it is read from, which is another place only while the file is staged.
#[derive(Debug)]
pub struct FileItem {
    pub file_path: String,
    pub tmp_path: String,
}

pub struct FileItemView {
    pub file_path: Seq<char>,
    pub tmp_path: Seq<char>,
}

impl View for FileItem {
    type V = FileItemView;

    open spec fn view(&self) -> FileItemView {
        FileItemView { file_path: self.file_path@, tmp_path: self.tmp_path@ }
    }
}

/// Two items are equal where they stand for the same file, whatever place
/// each is read from.
impl PartialEq for FileItem {
    fn eq(&self, other: &FileItem) -> (r: bool) {
        self.file_path == other.file_path
    }
}

impl vstd::std_specs::cmp::PartialEqSpecImpl for FileItem {
    open spec fn obeys_eq_spec() -> bool {
        true
    }

    open spec fn eq_spec(&self, other: &FileItem) -> bool {
        self.file_path@ == other.file_path@
    }
}

impl Eq for FileItem {

}

impl Clone for FileItem {
    fn clone(&self) -> (r: Self)
        ensures
            r == *self,
    {
        FileItem { file_path: self.file_path.clone(), tmp_path: self.tmp_path.clone() }
    }
}

impl FileItem {
    /// A file that is read where it lies.
    pub fn new(file_path: String) -> (item: FileItem)
        ensures
            item@.file_path == file_path@,
            item@.tmp_path == file_path@,
    {
        let tmp_path = file_path.clone();
        FileItem { file_path, tmp_path }
    }

    /// The same file, read from the copy at `tmp_path`.
    pub fn staged_at(&self, tmp_path: String) -> (item: FileItem)
        ensures
            item@.file_path == self@.file_path,
            item@.tmp_path == tmp_path@,
    {
        FileItem { file_path: self.file_path.clone(), tmp_path }
    }

    /// The file is read from a copy that has to be removed after use.
    pub open spec fn is_staged(&self) -> bool {
        self@.file_path != self@.tmp_path
    }

    pub fn staged(&self) -> (r: bool)
        ensures
            r == self.is_staged(),
    {
        !(self.file_path == self.tmp_path)
    }

    /// Two items stand for the same file where their `file_path`s agree.
    pub open spec fn same_file_as(&self, other: &FileItem) -> bool {
        self@.file_path == other@.file_path
    }

    pub fn same_file(&self, other: &FileItem) -> (r: bool)
        ensures
            r == self.same_file_as(other),
    {
        *self == *other
    }

    pub fn kind(&self) -> (r: Option<MediaKind>)
        ensures
            r == path_kind(self@.file_path),
    {
        media_kind(self.file_path.as_str())
    }
}

/// The `file_path`s of `files`, in order.
pub open spec fn file_paths(files: Seq<FileItem>) -> Seq<Seq<char>> {
    files.map_values(|f: FileItem| f@.file_path)
}

pub open spec fn path_texts(paths: Seq<String>) -> Seq<Seq<char>> {
    paths.map_values(|p: String| p@)
}

/// The media files among `paths`: each recognized path once, in the order of
/// its first occurrence.
pub open spec fn indexed(paths: Seq<Seq<char>>) -> Seq<Seq<char>>
    decreases paths.len(),
{
    if paths.len() == 0 {
        Seq::empty()
    } else {
        let rest = indexed(paths.drop_last());
        let p = paths.last();
        if path_kind(p) is Some && !rest.contains(p) {
            rest.push(p)
        } else {
            rest
        }
    }
}

/// What the index holds: exactly the recognized paths, none of them twice.
pub proof fn lemma_indexed_is_a_set(paths: Seq<Seq<char>>)
    ensures
        indexed(paths).no_duplicates(),
        forall|p: Seq<char>| #[trigger]
            indexed(paths).contains(p) <==> paths.contains(p) && path_kind(p) is Some,
    decreases paths.len(),
{
    if paths.len() > 0 {
        let front = paths.drop_last();
        let last = paths.last();
        lemma_indexed_is_a_set(front);
        let rest = indexed(front);
        assert forall|p: Seq<char>| #[trigger]
            indexed(paths).contains(p) <==> paths.contains(p) && path_kind(p) is Some by {
            if front.contains(p) {
                let k = choose|k: int| 0 <= k < front.len() && front[k] == p;
                assert(paths[k] == p);
            }
            if paths.contains(p) {
                let k = choose|k: int| 0 <= k < paths.len() && paths[k] == p;
                if k < front.len() {
                    assert(front[k] == p);
                }
            }
            if path_kind(last) is Some && !rest.contains(last) {
                let all = rest.push(last);
                if rest.contains(p) {
                    let k = choose|k: int| 0 <= k < rest.len() && rest[k] == p;
                    assert(all[k] == p);
                }
                if p == last {
                    assert(all[rest.len() as int] == p);
                }
                if all.contains(p) {
                    let k = choose|k: int| 0 <= k < all.len() && all[k] == p;
                    assert(k < rest.len() ==> rest[k] == p);
                }
            }
        }
    } else {
        assert forall|p: Seq<char>| #[trigger]
            indexed(paths).contains(p) <==> paths.contains(p) && path_kind(p) is Some by {}
    }
}

/// The media files among the paths that a walk of the source folder found.
pub fn index_files(paths: &Vec<String>) -> (files: Vec<FileItem>)
    ensures
        file_paths(files@) == indexed(path_texts(paths@)),
        forall|i: int| 0 <= i < files@.len() ==> !(#[trigger] files@[i]).is_staged(),
{
    let mut files: Vec<FileItem> = Vec::new();
    let mut seen: StringHashMap<bool> = StringHashMap::new();
    let ghost texts = path_texts(paths@);
    let mut i: usize = 0;
    while i < paths.len()
        invariant
            i <= paths@.len(),
            texts == path_texts(paths@),
            file_paths(files@) == indexed(texts.take(i as int)),
            forall|p: Seq<char>| seen@.contains_key(p) <==> file_paths(files@).contains(p),
            forall|k: int| 0 <= k < files@.len() ==> !(#[trigger] files@[k]).is_staged(),
        decreases paths@.len() - i,
    {
        let path = &paths[i];
        proof {
            assert(texts.take(i + 1).drop_last() =~= texts.take(i as int));
        }
        if media_kind(path.as_str()).is_some() && !seen.contains_key(path.as_str()) {
            let ghost before = file_paths(files@);
            seen.insert(path.clone(), true);
            files.push(FileItem::new(path.clone()));
            proof {
                assert forall|p: Seq<char>| seen@.contains_key(p) <==> file_paths(
                    files@,
                ).contains(p) by {
                    let now = file_paths(files@);
                    if before.contains(p) {
                        let k = choose|k: int| 0 <= k < before.len() && before[k] == p;
                        assert(now[k] == p);
                    }
                    if p == path@ {
                        assert(now[before.len() as int] == p);
                    }
                    if now.contains(p) {
                        let k = choose|k: int| 0 <= k < now.len() && now[k] == p;
                        if k < before.len() {
                            assert(before[k] == p);
                        }
                    }
                }
            }
        }
        i = i + 1;
    }
    proof {
        assert(texts.take(i as int) =~= texts);
    }
    files
}

/// The extension of `path` with the dot before it, or nothing for a path
/// without extension.
pub open spec fn dotted_extension(path: Seq<u8>) -> Seq<u8> {
    if has_extension(path) {
        let i = choose|i: int| is_extension_dot(path, i);
        path.subrange(i, path.len() as int)
    } else {
        Seq::empty()
    }
}

/// A name that can stand before an extension: at least one byte, and
/// neither dot nor separator in it.
pub open spec fn is_plain_name(name: Seq<u8>) -> bool {
    name.len() > 0 && forall|i: int| 0 <= i < name.len() ==> is_name_byte(#[trigger] name[i])
}

/// The place of a staged copy: in the directory `scratch`, under the name
/// `id`, with the extension of the file it is a copy of.
pub open spec fn staged_place(scratch: Seq<u8>, id: Seq<u8>, path: Seq<u8>) -> Seq<u8> {
    scratch + seq![SLASH] + id + dotted_extension(path)
}

/// A staged copy has the extension of its source, so that it is read as
/// what the source is.
pub proof fn lemma_staged_keeps_extension(scratch: Seq<u8>, id: Seq<u8>, path: Seq<u8>)
    requires
        is_plain_name(id),
    ensures
        extension(staged_place(scratch, id, path)) == extension(path),
        media_kind_of(staged_place(scratch, id, path)) == media_kind_of(path),
{
    let place = staged_place(scratch, id, path);
    let slash = scratch.len() as int;
    assert forall|k: int| slash < k < slash + 1 + id.len() implies is_name_byte(
        #[trigger] place[k],
    ) by {
    }
    if has_extension(path) {
        let d = choose|i: int| is_extension_dot(path, i);
        let p = slash + 1 + id.len();
        assert forall|j: int| p < j < place.len() implies is_name_byte(#[trigger] place[j]) by {
        }
        assert(is_extension_dot(place, p));
        let w = choose|i: int| is_extension_dot(place, i);
        lemma_extension_dot_unique(place, p, w);
        assert(place.subrange(p + 1, place.len() as int) =~= path.subrange(
            d + 1,
            path.len() as int,
        ));
    } else {
        assert forall|k: int| !is_extension_dot(place, k) by {
            if is_extension_dot(place, k) {
                if k < slash {
                    assert(is_name_byte(place[slash]));
                }
            }
        }
    }
}

/// Text after text is bytes after bytes.
pub proof fn lemma_encode_joined(a: Seq<char>, b: Seq<char>)
    ensures
        encode_utf8(a + b) == encode_utf8(a) + encode_utf8(b),
    decreases a.len(),
{
    if a.len() > 0 {
        assert((a + b).drop_first() =~= a.drop_first() + b);
        lemma_encode_joined(a.drop_first(), b);
    }
}

/// Whether `name` can stand before an extension.
pub fn plain_name(name: &str) -> (r: bool)
    ensures
        r == is_plain_name(name.spec_bytes()),
{
    let bytes = name.as_bytes();
    if bytes.len() == 0 {
        return false;
    }
    let mut i: usize = 0;
    while i < bytes.len()
        invariant
            i <= bytes@.len(),
            bytes@ == name.spec_bytes(),
            forall|j: int| 0 <= j < i ==> is_name_byte(#[trigger] bytes@[j]),
        decreases bytes@.len() - i,
    {
        if bytes[i] == DOT || is_separator_byte(bytes[i]) {
            return false;
        }
        i = i + 1;
    }
    true
}

/// The extension of `path` with the dot before it, or the empty text.
pub fn extension_with_dot(path: &str) -> (r: &str)
    ensures
        r.spec_bytes() == dotted_extension(path.spec_bytes()),
{
    let bytes = path.as_bytes();
    match extension_start(bytes) {
        Some(start) => {
            proof {
                vstd::utf8::encode_utf8_valid_utf8(path@);
                vstd::utf8::is_char_boundary_iff_not_is_continuation_byte(
                    bytes@,
                    start as int - 1,
                );
                let w = choose|i: int| is_extension_dot(bytes@, i);
                lemma_extension_dot_unique(bytes@, start as int - 1, w);
            }
            let (_, dotted) = path.split_at(start - 1);
            dotted
        },
        None => {
            proof {
                reveal_strlit("");
            }
            ""
        },
    }
}

/// The extension of `path` as text, without the dot, where the path has
/// one.
pub fn extension_text(path: &str) -> (r: Option<&str>)
    ensures
        match r {
            Some(e) => extension(path.spec_bytes()) == Some(e.spec_bytes()),
            None => extension(path.spec_bytes()) is None,
        },
{
    match extension_start(path.as_bytes()) {
        Some(_) => {
            let dotted = extension_with_dot(path);
            proof {
                let d = dotted.spec_bytes();
                let i = choose|i: int| is_extension_dot(path.spec_bytes(), i);
                assert(d[0] == DOT);
                vstd::utf8::encode_utf8_valid_utf8(dotted@);
                reveal_with_fuel(vstd::utf8::valid_utf8, 2);
                assert(vstd::utf8::length_of_first_scalar(d) == 1);
                assert(vstd::utf8::is_char_boundary(vstd::utf8::pop_first_scalar(d), 0));
                assert(vstd::utf8::is_char_boundary(d, 1));
                assert(d.subrange(1, d.len() as int) =~= path.spec_bytes().subrange(
                    i + 1,
                    path.spec_bytes().len() as int,
                ));
            }
            let (_, e) = dotted.split_at(1);
            Some(e)
        },
        None => None,
    }
}

/// The path of the staged copy of the file at `file_path`: in the
/// directory `scratch`, named `id`, with the extension of the file.
pub fn staged_path(scratch: &str, id: &str, file_path: &str) -> (r: String)
    ensures
        encode_utf8(r@) == staged_place(
            encode_utf8(scratch@),
            encode_utf8(id@),
            encode_utf8(file_path@),
        ),
{
    let dotted = extension_with_dot(file_path);
    let mut r = joined(scratch, "/");
    r.append(id);
    r.append(dotted);
    proof {
        reveal_strlit("/");
        let slash = "/"@;
        assert(encode_utf8(slash) =~= seq![SLASH]) by {
            lemma_encode_slash();
            assert(encode_utf8(slash) == vstd::utf8::encode_scalar(slash[0] as u32) + encode_utf8(
                slash.drop_first(),
            ));
        }
        lemma_encode_joined(scratch@, slash);
        lemma_encode_joined(scratch@ + slash, id@);
        lemma_encode_joined(scratch@ + slash + id@, dotted@);
    }
    r
}

proof fn lemma_encode_slash()
    ensures
        vstd::utf8::encode_scalar('/' as u32) == seq![SLASH],
{
    assert(0x2fu32 <= 0x7f && (0x2fu32 & 0x7f) == 0x2f) by (bit_vector);
}

impl FileItem {
    /// The same file, read from its staged copy in `scratch` under the
    /// name `id`.
    pub fn stage(&self, scratch: &str, id: &str) -> (item: FileItem)
        ensures
            item@.file_path == self@.file_path,
            encode_utf8(item@.tmp_path) == staged_place(
                encode_utf8(scratch@),
                encode_utf8(id@),
                encode_utf8(self@.file_path),
            ),
            is_plain_name(encode_utf8(id@)) ==> extension(encode_utf8(item@.tmp_path))
                == extension(encode_utf8(self@.file_path)),
    {
        proof {
            if is_plain_name(encode_utf8(id@)) {
                lemma_staged_keeps_extension(
                    encode_utf8(scratch@),
                    encode_utf8(id@),
                    encode_utf8(self@.file_path),
                );
            }
        }
        self.staged_at(staged_path(scratch, id, self.file_path.as_str()))
    }
}

} // verus!
