//! What the player knows of one audio file: its title, artists, path and tempo.

use std::hash::{Hash, Hasher};
use vstd::prelude::*;
use vstd::utf8::is_ascii_chars;
use crate::paths::{
    has_no_file_name, name_extension, path_extension, path_file_stem, plain_file_name, plain_stem,
};
use crate::text::{ascii_lower, opt_view, str_is};

verus! {

/// A track as a value.
pub struct TrackView {
    pub title: Seq<char>,
    pub artists: Seq<Seq<char>>,
    pub path: Seq<char>,
    pub tempo: Option<u32>,
}

/// An audio file in the queue.
#[derive(Debug, Default, Hash, PartialEq, Eq)]
pub struct TrackInfo {
    pub title: String,
    pub artists: Vec<String>,
    pub path: String,
    pub tempo: Option<u32>,
}

/// The values of a list of strings.
pub open spec fn strings_view(v: Seq<String>) -> Seq<Seq<char>> {
    v.map_values(|s: String| s@)
}

impl View for TrackInfo {
    type V = TrackView;

    open spec fn view(&self) -> TrackView {
        TrackView {
            title: self.title@,
            artists: strings_view(self.artists@),
            path: self.path@,
            tempo: self.tempo,
        }
    }
}

/// A copy of a list of strings.
pub fn clone_strings(v: &Vec<String>) -> (r: Vec<String>)
    ensures
        strings_view(r@) == strings_view(v@),
{
    let mut out: Vec<String> = Vec::new();
    let mut i: usize = 0;
    while i < v.len()
        invariant
            i <= v.len(),
            strings_view(out@) == strings_view(v@).take(i as int),
        decreases v.len() - i,
    {
        let ghost before = out@;
        out.push(v[i].clone());
        assert(strings_view(out@) =~= strings_view(before).push(v@[i as int]@));
        assert(strings_view(v@).take(i + 1) =~= strings_view(v@).take(i as int).push(
            v@[i as int]@,
        ));
        i += 1;
    }
    assert(strings_view(v@).take(i as int) =~= strings_view(v@));
    out
}

impl Clone for TrackInfo {
    fn clone(&self) -> (r: Self)
        ensures
            r@ == self@,
    {
        TrackInfo {
            title: self.title.clone(),
            artists: clone_strings(&self.artists),
            path: self.path.clone(),
            tempo: self.tempo,
        }
    }
}

/// The tags that an audio file holds, as read from it.
#[derive(Debug, Default)]
pub struct TagReading {
    pub title: Option<String>,
    pub artists: Option<Vec<String>>,
}

/// The title given to a file whose path has no file name.
pub open spec fn no_title() -> Seq<char> {
    seq!['[', 'n', 'o', ' ', 't', 'i', 't', 'l', 'e', ']']
}

/// The title a track takes from its file name: the file stem, or `[no title]`.
pub open spec fn filename_title(stem: Option<Seq<char>>) -> Seq<char> {
    match stem {
        Some(s) => s,
        None => no_title(),
    }
}

/// The title tag of a track, where there is a non-empty one.
pub open spec fn tag_title(tags: Option<TagReading>) -> Option<Seq<char>> {
    match tags {
        Some(t) => match t.title {
            Some(title) => if title@.len() > 0 {
                Some(title@)
            } else {
                None
            },
            None => None,
        },
        None => None,
    }
}

/// The title of a track: a non-empty title tag, else the title from its file name.
pub open spec fn track_title(stem: Option<Seq<char>>, tags: Option<TagReading>) -> Seq<char> {
    match tag_title(tags) {
        Some(title) => title,
        None => filename_title(stem),
    }
}

/// The artists of a track: its artist tags, or none.
pub open spec fn track_artists(tags: Option<TagReading>) -> Seq<Seq<char>> {
    match tags {
        Some(t) => match t.artists {
            Some(a) => strings_view(a@),
            None => Seq::<Seq<char>>::empty(),
        },
        None => Seq::<Seq<char>>::empty(),
    }
}

/// What `str::to_lowercase` returns for a string: its Unicode lower case.
pub uninterp spec fn spec_lowercase(s: Seq<char>) -> Seq<char>;

/// Calls `str::to_lowercase`; the result is named `spec_lowercase` of the
/// input. Stated besides: an ASCII string lower-cases character by character,
/// `A`-`Z` to `a`-`z` (the Unicode lower case of an ASCII letter is its ASCII
/// lower case, and other ASCII characters have none).
#[verifier::external_body]
fn lowercase(s: &str) -> (r: String)
    ensures
        r@ == spec_lowercase(s@),
        is_ascii_chars(s@) ==> r@ == s@.map_values(|c: char| ascii_lower(c)),
{
    s.to_lowercase()
}

/// Hashes `track` with fxhash's `FxHasher64`, feeding it the fields in the
/// order that `#[derive(Hash)]` does: title, artists, path (as a
/// `std::path::Path`), tempo. Nothing is stated of the value: `FxHasher64`
/// reads the bytes in the machine's byte order.
#[verifier::external_body]
pub(crate) fn fx_track_hash(track: &TrackInfo) -> u64 {
    let mut hasher = fxhash::FxHasher64::default();
    track.title.hash(&mut hasher);
    track.artists.hash(&mut hasher);
    std::path::Path::new(&track.path).hash(&mut hasher);
    track.tempo.hash(&mut hasher);
    hasher.finish()
}

/// The Unicode lower case of `s`, as `str::to_lowercase` gives it; for ASCII
/// text, each letter `A`-`Z` becomes `a`-`z`.
pub open spec fn lower_case(s: Seq<char>) -> Seq<char> {
    if is_ascii_chars(s) {
        s.map_values(|c: char| ascii_lower(c))
    } else {
        spec_lowercase(s)
    }
}

/// Whether a file name has an extension that names an audio format: one
/// that, in lower case, is among `audio_extensions`.
pub open spec fn is_audio_name(name: Seq<char>) -> bool {
    match name_extension(name) {
        Some(ext) => audio_extensions().contains(lower_case(ext)),
        None => false,
    }
}

/// The extensions of the files that are taken for audio.
pub open spec fn audio_extensions() -> Seq<Seq<char>> {
    seq![
        seq!['m', 'p', '3'],
        seq!['f', 'l', 'a', 'c'],
        seq!['w', 'a', 'v'],
        seq!['o', 'g', 'g'],
        seq!['o', 'g', 'a'],
        seq!['m', '4', 'a'],
        seq!['m', 'p', '4'],
    ]
}

impl TrackInfo {
    /// The track for the file at `path`, given its file stem, the tags read
    /// from it (`None` where they could not be read) and its tempo.
    pub fn from_parts(
        path: &str,
        file_stem: Option<String>,
        tags: Option<TagReading>,
        tempo: Option<u32>,
    ) -> (r: TrackInfo)
        ensures
            r@.title == track_title(opt_view(file_stem), tags),
            r@.artists == track_artists(tags),
            r@.path == path@,
            r@.tempo == tempo,
    {
        let ghost stem_view = opt_view(file_stem);
        let ghost tags_spec = tags;
        let filename_title: String = match file_stem {
            Some(s) => s,
            None => {
                let t = String::from_str("[no title]");
                proof {
                    reveal_strlit("[no title]");
                }
                assert(t@ =~= no_title());
                t
            },
        };
        let (title, artists) = match tags {
            Some(t) => {
                let title = match t.title {
                    Some(tt) => if !tt.as_str().is_empty() {
                        tt
                    } else {
                        filename_title
                    },
                    None => filename_title,
                };
                let artists = match t.artists {
                    Some(a) => a,
                    None => Vec::new(),
                };
                (title, artists)
            },
            None => (filename_title, Vec::new()),
        };
        proof {
            assert(strings_view(Seq::<String>::empty()) =~= Seq::<Seq<char>>::empty());
        }
        TrackInfo { title, artists, path: String::from_str(path), tempo }
    }

    /// The track for the file at `path`, given the tags read from it (`None`
    /// where they could not be read) and its tempo. The title is a non-empty
    /// title tag, else the file stem of `path`, else `[no title]`.
    pub fn from_path(path: &str, tags: Option<TagReading>, tempo: Option<u32>) -> (r: TrackInfo)
        ensures
            r@.artists == track_artists(tags),
            r@.path == path@,
            r@.tempo == tempo,
            tag_title(tags) matches Some(title) ==> r@.title == title,
            tag_title(tags) is None && plain_stem(path@) is Some ==> r@.title == plain_stem(
                path@,
            ).unwrap(),
            tag_title(tags) is None && has_no_file_name(path@) ==> r@.title == no_title(),
    {
        let stem = path_file_stem(path);
        TrackInfo::from_parts(path, stem, tags, tempo)
    }

    /// Whether `ext` (compared in lower case) names an audio format that the
    /// player takes: mp3, flac, wav, ogg, oga, m4a or mp4.
    pub fn is_audio_extension(ext: &str) -> (r: bool)
        ensures
            r == audio_extensions().contains(lower_case(ext@)),
    {
        let lower = lowercase(ext);
        let l = lower.as_str();
        let ghost x = lower_case(ext@);
        let ghost e = audio_extensions();
        proof {
            reveal_strlit("mp3");
            reveal_strlit("flac");
            reveal_strlit("wav");
            reveal_strlit("ogg");
            reveal_strlit("oga");
            reveal_strlit("m4a");
            reveal_strlit("mp4");
            assert("mp3"@ =~= e[0]);
            assert("flac"@ =~= e[1]);
            assert("wav"@ =~= e[2]);
            assert("ogg"@ =~= e[3]);
            assert("oga"@ =~= e[4]);
            assert("m4a"@ =~= e[5]);
            assert("mp4"@ =~= e[6]);
        }
        let b0 = str_is(l, "mp3");
        let b1 = str_is(l, "flac");
        let b2 = str_is(l, "wav");
        let b3 = str_is(l, "ogg");
        let b4 = str_is(l, "oga");
        let b5 = str_is(l, "m4a");
        let b6 = str_is(l, "mp4");
        let r = b0 || b1 || b2 || b3 || b4 || b5 || b6;
        proof {
            if b0 {
                assert(e[0] == x);
            } else if b1 {
                assert(e[1] == x);
            } else if b2 {
                assert(e[2] == x);
            } else if b3 {
                assert(e[3] == x);
            } else if b4 {
                assert(e[4] == x);
            } else if b5 {
                assert(e[5] == x);
            } else if b6 {
                assert(e[6] == x);
            } else {
                assert forall|i: int| 0 <= i < e.len() implies e[i] != x by {
                    if i == 0 {
                    } else if i == 1 {
                    } else if i == 2 {
                    } else if i == 3 {
                    } else if i == 4 {
                    } else if i == 5 {
                    } else {
                    }
                }
            }
        }
        r
    }

    /// Whether a directory entry is a track to queue: a file whose extension
    /// is an audio extension.
    pub fn is_audio_file(path: &str, is_file: bool) -> (r: bool)
        ensures
            r ==> is_file,
            !path@.contains('.') ==> !r,
            is_file && plain_file_name(path@) is Some ==> r == is_audio_name(
                plain_file_name(path@).unwrap(),
            ),
    {
        if !is_file {
            return false;
        }
        match path_extension(path) {
            Some(ext) => TrackInfo::is_audio_extension(ext.as_str()),
            None => false,
        }
    }

    /// The track's text as shown to a user: its title.
    pub fn to_display_string(&self) -> (r: String)
        ensures
            r@ == self.title@,
    {
        self.title.clone()
    }
}

} // verus!
