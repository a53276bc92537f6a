//! The photo resolver: turns the configured photo source into the current
//! list of photo references.
//!
//! Two mutually exclusive strategies exist. The directory-scan strategy
//! takes the file names found in the configured folder, keeps those whose
//! extension is (case-insensitively) one of `jpg`, `jpeg`, `png`, `gif`,
//! `webp`, and emits each as `/photos/<filename>` — the bare file name
//! behind a fixed public route segment, never the full filesystem path.
//! The external-list strategy is a stub: it returns a fixed placeholder
//! list whatever album identifiers are configured (a documented
//! limitation, not resolved to real images).

use vstd::prelude::*;

verus! {

/// Case-insensitive match of one character against a lowercase ASCII
/// letter: equal outright, or the uppercase ASCII form of it.
pub open spec fn ci_eq_char(a: char, b: char) -> bool {
    a == b || (65 <= a as u32 <= 90 && a as u32 + 32 == b as u32)
}

/// The extension equals the given lowercase literal, ignoring ASCII case.
pub open spec fn ext_matches(ext: Seq<char>, lit: Seq<char>) -> bool {
    ext.len() == lit.len() && (forall|i: int| 0 <= i < ext.len() ==> ci_eq_char(ext[i], lit[i]))
}

/// The extension names one of the accepted image formats.
pub open spec fn is_image_ext(ext: Seq<char>) -> bool {
    ||| ext_matches(ext, seq!['j', 'p', 'g'])
    ||| ext_matches(ext, seq!['j', 'p', 'e', 'g'])
    ||| ext_matches(ext, seq!['p', 'n', 'g'])
    ||| ext_matches(ext, seq!['g', 'i', 'f'])
    ||| ext_matches(ext, seq!['w', 'e', 'b', 'p'])
}

/// Index of the last `.` in a file name, or -1 if there is none.
pub open spec fn last_dot_index(name: Seq<char>) -> int
    decreases name.len(),
{
    if name.len() == 0 {
        -1
    } else if name.last() == '.' {
        name.len() - 1
    } else {
        last_dot_index(name.drop_last())
    }
}

/// A file name has an accepted image extension: there is a last dot, it is
/// not the leading character (a name such as `.jpg` has no extension, only
/// a hidden-file stem), and what follows it is an accepted format.
pub open spec fn has_image_ext(name: Seq<char>) -> bool {
    let p = last_dot_index(name);
    p >= 1 && is_image_ext(name.skip(p + 1))
}

/// The public route under which a surviving file name is exposed.
pub open spec fn photo_ref(name: Seq<char>) -> Seq<char> {
    "/photos/"@ + name
}

/// The references produced by the directory-scan strategy from a list of
/// file names: one `/photos/<filename>` entry per name with an accepted
/// image extension, in the order the names were given.
pub open spec fn spec_photo_refs(names: Seq<Seq<char>>) -> Seq<Seq<char>>
    decreases names.len(),
{
    if names.len() == 0 {
        Seq::empty()
    } else {
        (if has_image_ext(names[0]) {
            seq![photo_ref(names[0])]
        } else {
            Seq::<Seq<char>>::empty()
        }) + spec_photo_refs(names.drop_first())
    }
}

/// The fixed placeholder list of the external-list strategy.
pub open spec fn spec_placeholder_refs() -> Seq<Seq<char>> {
    seq!["/photos/placeholder.jpg"@]
}

proof fn lemma_photo_refs_snoc(names: Seq<Seq<char>>, name: Seq<char>)
    ensures
        spec_photo_refs(names + seq![name]) == spec_photo_refs(names) + (if has_image_ext(name) {
            seq![photo_ref(name)]
        } else {
            Seq::<Seq<char>>::empty()
        }),
    decreases names.len(),
{
    let whole = names + seq![name];
    let tail = (if has_image_ext(name) {
        seq![photo_ref(name)]
    } else {
        Seq::<Seq<char>>::empty()
    });
    assert(whole[0] == if names.len() == 0 {
        name
    } else {
        names[0]
    });
    if names.len() == 0 {
        assert(whole =~= seq![name]);
        assert(whole.drop_first() =~= Seq::<Seq<char>>::empty());
        assert(spec_photo_refs(whole.drop_first()) =~= Seq::<Seq<char>>::empty());
        assert(spec_photo_refs(whole) =~= tail);
        assert(spec_photo_refs(names) =~= Seq::<Seq<char>>::empty());
        assert(spec_photo_refs(whole) =~= spec_photo_refs(names) + tail);
    } else {
        assert(whole.drop_first() =~= names.drop_first() + seq![name]);
        lemma_photo_refs_snoc(names.drop_first(), name);
        assert(spec_photo_refs(whole) =~= spec_photo_refs(names) + tail);
    }
}

/// Decides whether one character matches a lowercase ASCII letter,
/// ignoring ASCII case.
fn ci_eq_char_exec(a: char, b: char) -> (r: bool)
    ensures
        r == ci_eq_char(a, b),
{
    a == b || (65 <= a as u32 && a as u32 <= 90 && a as u32 + 32 == b as u32)
}

/// Compares the tail of a name, from `start` on, against a lowercase
/// literal, ignoring ASCII case.
fn ext_matches_exec(chars: &Vec<char>, start: usize, lit: &str) -> (r: bool)
    requires
        start <= chars@.len(),
    ensures
        r == ext_matches(chars@.skip(start as int), lit@),
{
    let n = lit.unicode_len();
    if chars.len() - start != n {
        return false;
    }
    let mut i: usize = 0;
    while i < n
        invariant
            i <= n,
            n == lit@.len(),
            start + n == chars@.len(),
            start + n <= usize::MAX,
            forall|j: int| 0 <= j < i ==> ci_eq_char(chars@.skip(start as int)[j], lit@[j]),
        decreases n - i,
    {
        if !ci_eq_char_exec(chars[start + i], lit.get_char(i)) {
            assert(!ci_eq_char(chars@.skip(start as int)[i as int], lit@[i as int]));
            return false;
        }
        i = i + 1;
    }
    true
}

/// Decides whether a file name carries an accepted image extension.
pub fn name_has_image_ext(name: &str) -> (r: bool)
    ensures
        r == has_image_ext(name@),
{
    let chars = crate::text::chars_of_str(name);
    let n = chars.len();
    // Forward scan for the last dot; `last_dot_index` of each prefix grows
    // with the scan.
    let mut last_dot: Option<usize> = None;
    let mut i: usize = 0;
    while i < n
        invariant
            i <= n,
            n == chars@.len(),
            chars@ == name@,
            match last_dot {
                Option::Some(p) => p < i && last_dot_index(chars@.take(i as int)) == p as int,
                Option::None => last_dot_index(chars@.take(i as int)) == -1,
            },
        decreases n - i,
    {
        assert(chars@.take(i + 1).drop_last() =~= chars@.take(i as int));
        assert(chars@.take(i + 1).last() == chars@[i as int]);
        if chars[i] == '.' {
            last_dot = Some(i);
        }
        i = i + 1;
    }
    assert(chars@.take(n as int) =~= chars@);
    match last_dot {
        Option::None => false,
        Option::Some(p) => {
            if p < 1 {
                false
            } else {
                let r = ext_matches_exec(&chars, p + 1, "jpg") || ext_matches_exec(
                    &chars,
                    p + 1,
                    "jpeg",
                ) || ext_matches_exec(&chars, p + 1, "png") || ext_matches_exec(&chars, p + 1, "gif")
                    || ext_matches_exec(&chars, p + 1, "webp");
                proof {
                    reveal_strlit("jpg");
                    reveal_strlit("jpeg");
                    reveal_strlit("png");
                    reveal_strlit("gif");
                    reveal_strlit("webp");
                    assert("jpg"@ =~= seq!['j', 'p', 'g']);
                    assert("jpeg"@ =~= seq!['j', 'p', 'e', 'g']);
                    assert("png"@ =~= seq!['p', 'n', 'g']);
                    assert("gif"@ =~= seq!['g', 'i', 'f']);
                    assert("webp"@ =~= seq!['w', 'e', 'b', 'p']);
                }
                r
            }
        },
    }
}

/// Directory-scan strategy on a known listing: keeps the file names with
/// an accepted image extension and emits each as `/photos/<filename>`,
/// in listing order.
pub fn photo_refs_of_names(names: &Vec<String>) -> (r: Vec<String>)
    ensures
        r.deep_view() == spec_photo_refs(names.deep_view()),
{
    let mut r: Vec<String> = Vec::new();
    let mut i: usize = 0;
    while i < names.len()
        invariant
            i <= names@.len(),
            r.deep_view() == spec_photo_refs(names.deep_view().take(i as int)),
        decreases names@.len() - i,
    {
        proof {
            assert(names.deep_view().take(i + 1) =~= names.deep_view().take(i as int) + seq![
                names.deep_view()[i as int],
            ]);
            lemma_photo_refs_snoc(names.deep_view().take(i as int), names.deep_view()[i as int]);
        }
        let name = &names[i];
        assert(name@ == names.deep_view()[i as int]);
        if name_has_image_ext(name.as_str()) {
            let refstr = String::from_str("/photos/").concat(name.as_str());
            let ghost before = r.deep_view();
            r.push(refstr);
            assert(r.deep_view() =~= before + seq![photo_ref(names.deep_view()[i as int])]);
        }
        i = i + 1;
    }
    assert(names.deep_view().take(names@.len() as int) =~= names.deep_view());
    r
}

/// Directory-scan strategy at the service boundary: `None` stands for a
/// directory that could not be opened or enumerated, and yields the empty
/// list rather than an error; a listing yields its filtered references.
pub fn scan_photo_refs(listing: Option<&Vec<String>>) -> (r: Vec<String>)
    ensures
        match listing {
            Option::Some(names) => r.deep_view() == spec_photo_refs(names.deep_view()),
            Option::None => r.deep_view() == Seq::<Seq<char>>::empty(),
        },
{
    match listing {
        Option::Some(names) => photo_refs_of_names(names),
        Option::None => {
            let r: Vec<String> = Vec::new();
            assert(r.deep_view() =~= Seq::<Seq<char>>::empty());
            r
        },
    }
}

/// External-list strategy: a stub that succeeds on every input and returns
/// the fixed placeholder list, whatever album identifiers are configured
/// and whether or not the list is empty.
pub fn external_album_photos(_album_ids: &Vec<String>) -> (r: Vec<String>)
    ensures
        r.deep_view() == spec_placeholder_refs(),
{
    let mut r: Vec<String> = Vec::new();
    r.push(String::from_str("/photos/placeholder.jpg"));
    assert(r.deep_view() =~= spec_placeholder_refs());
    r
}

} // verus!
