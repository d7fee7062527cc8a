//! Names that clients give to files. They are shown, and stand in headers and in
//! archives; they are never part of a path on this machine.

use crate::text::{
    chars_of, control, is_control, joined, lemma_trimmed_is_stretch, pieces, same_text, split_at_char,
    text_of, trim_chars, trimmed, views,
};
use vstd::prelude::*;

verus! {

/// What a name is called that has nothing left in it.
pub const DEFAULT_FILENAME: &'static str = "download.bin";

/// What an archive entry is called whose name has nothing left in it.
pub const DEFAULT_ENTRY_NAME: &'static str = "file.bin";

/// The most characters that a name keeps.
pub const MAX_NAME_CHARS: usize = 255;

/// What separates the parts of a path becomes an underscore.
pub open spec fn unseparated(c: char) -> char {
    if c == '/' || c == '\\' {
        '_'
    } else {
        c
    }
}

/// Without control characters, and without what separates the parts of a path.
pub open spec fn cleaned(name: Seq<char>) -> Seq<char> {
    name.filter(|c: char| !is_control(c)).map_values(|c: char| unseparated(c))
}

/// Each two dots in a row, read from the front, become an underscore.
pub open spec fn without_double_dots(s: Seq<char>) -> Seq<char>
    decreases s.len(),
{
    if s.len() == 0 {
        Seq::empty()
    } else if s.len() >= 2 && s[0] == '.' && s[1] == '.' {
        seq!['_'] + without_double_dots(s.skip(2))
    } else {
        seq![s[0]] + without_double_dots(s.skip(1))
    }
}

/// At most the first `n` characters.
pub open spec fn at_most(s: Seq<char>, n: int) -> Seq<char> {
    if s.len() <= n {
        s
    } else {
        s.take(n)
    }
}

/// The name of a file, made safe to show.
pub open spec fn safe_filename(name: Seq<char>) -> Seq<char> {
    let t = trimmed(cleaned(name));
    if t.len() == 0 {
        DEFAULT_FILENAME@
    } else {
        at_most(without_double_dots(t), MAX_NAME_CHARS as int)
    }
}

fn clean(name: &str) -> (r: Vec<char>)
    ensures
        r@ == cleaned(name@),
{
    let chars = chars_of(name);
    let n: usize = chars.len();
    let mut out: Vec<char> = Vec::new();
    let ghost plain = |c: char| !is_control(c);
    assert(chars@.take(0) =~= Seq::<char>::empty());
    for i in 0..n
        invariant
            n == chars@.len(),
            plain == (|c: char| !is_control(c)),
            out@ == chars@.take(i as int).filter(plain).map_values(|c: char| unseparated(c)),
    {
        reveal_with_fuel(Seq::filter, 2);
        assert(chars@.take(i + 1).drop_last() =~= chars@.take(i as int));
        let c = chars[i];
        let ghost before = out@;
        if !control(c) {
            out.push(
                if c == '/' || c == '\\' {
                    '_'
                } else {
                    c
                },
            );
            assert(chars@.take(i + 1).filter(plain) == chars@.take(i as int).filter(plain).push(c));
            assert(chars@.take(i + 1).filter(plain).map_values(|c: char| unseparated(c))
                =~= before.push(unseparated(c)));
        }
    }
    assert(chars@.take(n as int) =~= name@);
    out
}

fn replace_double_dots(s: &[char]) -> (r: Vec<char>)
    ensures
        r@ == without_double_dots(s@),
{
    let n: usize = s.len();
    let mut out: Vec<char> = Vec::new();
    let mut i: usize = 0;
    assert(s@.skip(0) =~= s@);
    assert(out@ + without_double_dots(s@) =~= without_double_dots(s@));
    while i < n
        invariant
            n == s@.len(),
            i <= n,
            out@ + without_double_dots(s@.skip(i as int)) == without_double_dots(s@),
        decreases n - i,
    {
        let ghost rest = s@.skip(i as int);
        let ghost before = out@;
        assert(rest[0] == s@[i as int]);
        if n - i >= 2 && s[i] == '.' && s[i + 1] == '.' {
            assert(rest[1] == s@[i + 1]);
            assert(rest.skip(2) =~= s@.skip(i + 2));
            out.push('_');
            assert(before + without_double_dots(rest) =~= out@ + without_double_dots(
                s@.skip(i + 2),
            ));
            i = i + 2;
        } else {
            assert(rest.len() >= 2 ==> rest[1] == s@[i + 1]);
            assert(rest.skip(1) =~= s@.skip(i + 1));
            out.push(s[i]);
            assert(before + without_double_dots(rest) =~= out@ + without_double_dots(
                s@.skip(i + 1),
            ));
            i = i + 1;
        }
    }
    assert(s@.skip(n as int) =~= Seq::<char>::empty());
    assert(out@ =~= out@ + without_double_dots(s@.skip(n as int)));
    out
}

/// Makes the name that a client gives safe to show: no control characters, no
/// path separators, no white space at the ends, no two dots in a row, and not
/// too long.
pub fn sanitize_filename(name: &str) -> (r: String)
    ensures
        r@ == safe_filename(name@),
{
    let clean_chars = clean(name);
    let kept = trim_chars(clean_chars.as_slice());
    if kept.len() == 0 {
        DEFAULT_FILENAME.to_string()
    } else {
        let mut chars = replace_double_dots(kept);
        if chars.len() > MAX_NAME_CHARS {
            chars.truncate(MAX_NAME_CHARS);
            assert(chars@ =~= without_double_dots(kept@).take(MAX_NAME_CHARS as int));
        }
        text_of(chars.as_slice())
    }
}

// ---------------------------------------------------------------------------
// Names in an archive

/// Both separators of paths as one.
pub open spec fn one_separator(s: Seq<char>) -> Seq<char> {
    s.map_values(
        |c: char|
            if c == '\\' {
                '/'
            } else {
                c
            },
    )
}

/// A part of a path that names something.
pub open spec fn names_something(part: Seq<char>) -> bool {
    part.len() > 0 && part != "."@ && part != ".."@
}

/// The parts of a path that name something, each made safe.
pub open spec fn safe_parts(name: Seq<char>) -> Seq<Seq<char>> {
    pieces(one_separator(name), '/').filter(|p: Seq<char>| names_something(p)).map_values(
        |p: Seq<char>| safe_filename(p),
    )
}

/// The name of an archive entry: a relative path of safe parts.
pub open spec fn safe_entry(name: Seq<char>) -> Seq<char> {
    if safe_parts(name).len() == 0 {
        DEFAULT_ENTRY_NAME@
    } else {
        joined(safe_parts(name), '/')
    }
}

fn with_one_separator(s: &str) -> (r: Vec<char>)
    ensures
        r@ == one_separator(s@),
{
    let chars = chars_of(s);
    let n: usize = chars.len();
    let mut out: Vec<char> = Vec::new();
    for i in 0..n
        invariant
            n == chars@.len(),
            chars@ == s@,
            out@ == one_separator(s@).take(i as int),
    {
        let c = chars[i];
        out.push(
            if c == '\\' {
                '/'
            } else {
                c
            },
        );
        assert(one_separator(s@).take(i + 1) =~= one_separator(s@).take(i as int).push(
            one_separator(s@)[i as int],
        ));
    }
    assert(one_separator(s@).take(n as int) =~= one_separator(s@));
    out
}

/// Makes the path that a client gives for a file of a folder safe as the name of
/// an archive entry: a relative path that leads nowhere but down.
pub fn sanitize_zip_entry(name: &str) -> (r: String)
    ensures
        r@ == safe_entry(name@),
{
    let path = with_one_separator(name);
    let parts = split_at_char(path.as_slice(), '/');
    let n: usize = parts.len();
    let ghost all = views(parts@);
    let ghost named = |p: Seq<char>| names_something(p);
    let ghost safe = |p: Seq<char>| safe_filename(p);
    let mut out = String::new();
    let mut some = false;
    assert(all.take(0) =~= Seq::<Seq<char>>::empty());
    for i in 0..n
        invariant
            n == parts@.len(),
            all == views(parts@),
            named == (|p: Seq<char>| names_something(p)),
            safe == (|p: Seq<char>| safe_filename(p)),
            some == (all.take(i as int).filter(named).len() > 0),
            out@ == joined(all.take(i as int).filter(named).map_values(safe), '/'),
    {
        reveal_with_fuel(Seq::filter, 2);
        let ghost before = all.take(i as int).filter(named).map_values(safe);
        assert(all.take(i + 1).drop_last() =~= all.take(i as int));
        assert(all[i as int] == parts@[i as int]@);
        let part = text_of(parts[i].as_slice());
        if !part.as_str().is_empty() && !same_text(part.as_str(), ".") && !same_text(
            part.as_str(),
            "..",
        ) {
            let safe_part = sanitize_filename(part.as_str());
            proof {
                let after = all.take(i + 1).filter(named).map_values(safe);
                assert(all.take(i + 1).filter(named) == all.take(i as int).filter(named).push(
                    part@,
                ));
                assert(after =~= before.push(safe_part@));
                assert(after.drop_last() =~= before);
                assert(before.len() == 0 ==> out@ =~= Seq::<char>::empty());
            }
            if some {
                out.push('/');
            }
            let ghost so_far = out@;
            out.append(safe_part.as_str());
            proof {
                let after = all.take(i + 1).filter(named).map_values(safe);
                assert(after.last() == safe_part@);
                if !some {
                    assert(so_far + safe_part@ =~= safe_part@);
                }
            }
            some = true;
        }
    }
    assert(all.take(n as int) =~= all);
    if some {
        out
    } else {
        DEFAULT_ENTRY_NAME.to_string()
    }
}

// ---------------------------------------------------------------------------
// What the names are safe of

/// No control character, no backslash.
pub open spec fn no_control(s: Seq<char>) -> bool {
    forall|i: int| 0 <= i < s.len() ==> !is_control(#[trigger] s[i]) && s[i] != '\\'
}

pub open spec fn no_slash(s: Seq<char>) -> bool {
    forall|i: int| 0 <= i < s.len() ==> #[trigger] s[i] != '/'
}

/// Nowhere the same character twice in a row.
pub open spec fn never_twice(s: Seq<char>, c: char) -> bool {
    forall|i: int, j: int|
        0 <= i && j == i + 1 && j < s.len() ==> !(#[trigger] s[i] == c && #[trigger] s[j] == c)
}

/// A name that cannot be taken for a path, that breaks no header, and that has
/// something in it.
pub open spec fn is_safe_name(s: Seq<char>) -> bool {
    0 < s.len() <= MAX_NAME_CHARS && no_control(s) && no_slash(s) && never_twice(s, '.')
}

/// A relative path, with a name before and behind each of its slashes, that has
/// no part that leads up.
pub open spec fn is_safe_path(s: Seq<char>) -> bool {
    &&& s.len() > 0
    &&& no_control(s)
    &&& s[0] != '/'
    &&& s.last() != '/'
    &&& never_twice(s, '/')
    &&& never_twice(s, '.')
}

proof fn lemma_cleaned(name: Seq<char>)
    ensures
        no_control(cleaned(name)),
        no_slash(cleaned(name)),
{
    let plain = |c: char| !is_control(c);
    let kept = name.filter(plain);
    let s = cleaned(name);
    assert forall|i: int| 0 <= i < s.len() implies !is_control(#[trigger] s[i]) && s[i] != '\\'
        && s[i] != '/' by {
        name.lemma_filter_pred(plain, i);
        assert(plain(kept[i]));
    }
}

proof fn lemma_without_double_dots(s: Seq<char>)
    requires
        no_control(s),
        no_slash(s),
    ensures
        no_control(without_double_dots(s)),
        no_slash(without_double_dots(s)),
        never_twice(without_double_dots(s), '.'),
        without_double_dots(s).len() <= s.len(),
        s.len() > 0 ==> without_double_dots(s).len() > 0,
        without_double_dots(s).len() > 0 && without_double_dots(s)[0] == '.' ==> s[0] == '.' && (
        s.len() == 1 || s[1] != '.'),
    decreases s.len(),
{
    let r = without_double_dots(s);
    if s.len() == 0 {
    } else {
        let twice = s.len() >= 2 && s[0] == '.' && s[1] == '.';
        let rest = if twice {
            s.skip(2)
        } else {
            s.skip(1)
        };
        let n = if twice {
            2int
        } else {
            1int
        };
        assert forall|i: int| 0 <= i < rest.len() implies !is_control(#[trigger] rest[i])
            && rest[i] != '\\' && rest[i] != '/' by {
            assert(rest[i] == s[i + n]);
        }
        lemma_without_double_dots(rest);
        let tail = without_double_dots(rest);
        assert forall|i: int| 0 <= i < r.len() implies !is_control(#[trigger] r[i]) && r[i] != '\\'
            && r[i] != '/' by {
            if i > 0 {
                assert(r[i] == tail[i - 1]);
            }
        }
        assert forall|i: int, j: int|
            0 <= i && j == i + 1 && j < r.len() implies !(#[trigger] r[i] == '.' && #[trigger] r[j]
            == '.') by {
            assert(r[j] == tail[j - 1]);
            if i > 0 {
                assert(r[i] == tail[i - 1]);
            } else if r[0] == '.' && r[1] == '.' {
                assert(tail[0] == '.');
                assert(rest[0] == s[1]);
            }
        }
    }
}

/// The name of a file that is shown, or that stands in a header, is never empty
/// and never too long, and holds no control character, no path separator and no
/// two dots in a row, whatever a client sent.
pub proof fn law_filename_is_safe(name: Seq<char>)
    ensures
        is_safe_name(safe_filename(name)),
{
    let c = cleaned(name);
    let t = trimmed(c);
    lemma_cleaned(name);
    let (a, b) = lemma_trimmed_is_stretch(c);
    if t.len() == 0 {
        reveal_strlit("download.bin");
    } else {
        assert forall|i: int| 0 <= i < t.len() implies !is_control(#[trigger] t[i]) && t[i] != '\\'
            && t[i] != '/' by {
            assert(t[i] == c[a + i]);
        }
        lemma_without_double_dots(t);
        let d = without_double_dots(t);
        let r = safe_filename(name);
        assert forall|i: int| 0 <= i < r.len() implies r[i] == d[i] by {}
        assert(forall|i: int| 0 <= i < r.len() ==> #[trigger] r[i] == d[i]);
        assert(no_control(r));
        assert(no_slash(r));
        assert(never_twice(r, '.'));
    }
}

proof fn lemma_joined_safe(parts: Seq<Seq<char>>)
    requires
        parts.len() > 0,
        forall|i: int| 0 <= i < parts.len() ==> is_safe_name(#[trigger] parts[i]),
    ensures
        is_safe_path(joined(parts, '/')),
    decreases parts.len(),
{
    let r = joined(parts, '/');
    if parts.len() == 1 {
        assert(is_safe_name(parts[0]));
    } else {
        let init = parts.drop_last();
        assert forall|i: int| 0 <= i < init.len() implies is_safe_name(#[trigger] init[i]) by {
            assert(init[i] == parts[i]);
        }
        lemma_joined_safe(init);
        let head = joined(init, '/');
        let last = parts.last();
        assert(is_safe_name(parts[parts.len() - 1]));
        let n = head.len() as int;
        assert(r == head.push('/') + last);
        assert(forall|i: int| 0 <= i < n ==> #[trigger] r[i] == head[i]);
        assert(r[n] == '/');
        assert(forall|i: int| n < i < r.len() ==> #[trigger] r[i] == last[i - n - 1]);
        assert(no_control(r));
        assert(r.last() == last.last());
        assert(r[0] == head[0]);
        assert forall|i: int, j: int|
            0 <= i && j == i + 1 && j < r.len() implies !(#[trigger] r[i] == '/' && #[trigger] r[j]
            == '/') && !(r[i] == '.' && r[j] == '.') by {
            if j < n {
                assert(r[i] == head[i] && r[j] == head[j]);
            } else if j == n {
                assert(r[i] == head[i]);
                assert(head.last() == head[i]);
            } else if i == n {
                assert(r[j] == last[0]);
            } else {
                assert(r[i] == last[i - n - 1] && r[j] == last[j - n - 1]);
            }
        }
    }
}

/// The name of an archive entry is a relative path that leads nowhere but down,
/// whatever path a client sent: no empty part, no part that leads up, no
/// backslash and no control character.
pub proof fn law_archive_entry_is_safe(name: Seq<char>)
    ensures
        is_safe_path(safe_entry(name)),
{
    let named = |p: Seq<char>| names_something(p);
    let kept = pieces(one_separator(name), '/').filter(named);
    let parts = safe_parts(name);
    if parts.len() == 0 {
        reveal_strlit("file.bin");
    } else {
        assert forall|i: int| 0 <= i < parts.len() implies is_safe_name(#[trigger] parts[i]) by {
            law_filename_is_safe(kept[i]);
        }
        lemma_joined_safe(parts);
    }
}

} // verus!
