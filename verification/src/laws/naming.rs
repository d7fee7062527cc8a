//! What becomes of the names that clients give: every step of making a name safe,
//! stated by what two names have in common.

use crate::laws::filters::{lemma_filter_all, lemma_filter_concat, lemma_filter_none};
use crate::names::{
    at_most, cleaned, names_something, one_separator, safe_entry, safe_filename, safe_parts,
    without_double_dots,
};
use crate::text::{
    cut_at, find, first_index, has_prefix, has_suffix, is_alphanumeric, is_control, is_digit,
    is_graphic, is_white_space, joined, lemma_first_index_is, lower, lowercase, pieces, stands_at,
    trim_back, trim_front, trimmed,
};
use vstd::prelude::*;

verus! {

/// Which characters are of which kind, by their numbers.
pub proof fn law_kinds_of_characters(c: char)
    ensures
        ({
            let n = c as int;
            &&& is_control(c) <==> 0 <= n < 0x20 || 0x7f <= n < 0xa0
            &&& is_white_space(c) <==> 9 <= n <= 13 || n == 0x20 || n == 0x85 || n == 0xa0 || n
                == 0x1680 || 0x2000 <= n <= 0x200a || n == 0x2028 || n == 0x2029 || n == 0x202f || n
                == 0x205f || n == 0x3000
            &&& is_digit(c) <==> 48 <= n <= 57
            &&& is_alphanumeric(c) <==> 48 <= n <= 57 || 65 <= n <= 90 || 97 <= n <= 122
            &&& is_graphic(c) <==> 33 <= n <= 126
            &&& lower(c) as int == if 65 <= n <= 90 {
                n + 32
            } else {
                n
            }
        }),
{
}

/// A text in small letters is as long as before, with each character in its place,
/// and making it small again changes nothing.
pub proof fn law_small_letters(s: Seq<char>, i: int)
    requires
        0 <= i < s.len(),
    ensures
        lowercase(s).len() == s.len(),
        lowercase(s)[i] as int == if 65 <= s[i] as int <= 90 {
            s[i] as int + 32
        } else {
            s[i] as int
        },
        lowercase(lowercase(s)) == lowercase(s),
{
    assert(lowercase(lowercase(s)) =~= lowercase(s));
}

// ---------------------------------------------------------------------------
// Parts of texts

/// A text begins, ends or goes on somewhere with another where the characters of the
/// other stand there, one by one.
pub proof fn law_parts_by_their_characters(s: Seq<char>, part: Seq<char>, at: int)
    ensures
        has_prefix(s, part) <==> part.len() <= s.len() && forall|i: int|
            0 <= i < part.len() ==> #[trigger] s[i] == part[i],
        has_suffix(s, part) <==> part.len() <= s.len() && forall|i: int|
            0 <= i < part.len() ==> s[s.len() - part.len() + i] == #[trigger] part[i],
        stands_at(s, part, at) <==> 0 <= at && at + part.len() <= s.len() && forall|i: int|
            0 <= i < part.len() ==> s[at + i] == #[trigger] part[i],
{
    let n = part.len() as int;
    if n <= s.len() {
        let front = s.take(n);
        let back = s.skip(s.len() - n);
        if has_prefix(s, part) {
            assert forall|i: int| 0 <= i < n implies #[trigger] s[i] == part[i] by {
                assert(front[i] == part[i]);
            }
        }
        if forall|i: int| 0 <= i < n ==> #[trigger] s[i] == part[i] {
            assert(front =~= part);
        }
        if has_suffix(s, part) {
            assert forall|i: int| 0 <= i < n implies s[s.len() - n + i] == #[trigger] part[i] by {
                assert(back[i] == part[i]);
            }
        }
        if forall|i: int| 0 <= i < n ==> s[s.len() - n + i] == #[trigger] part[i] {
            assert(back =~= part);
        }
    }
    if 0 <= at && at + n <= s.len() {
        let middle = s.subrange(at, at + n);
        if stands_at(s, part, at) {
            assert forall|i: int| 0 <= i < n implies s[at + i] == #[trigger] part[i] by {
                assert(middle[i] == part[i]);
            }
        }
        if forall|i: int| 0 <= i < n ==> s[at + i] == #[trigger] part[i] {
            assert(middle =~= part);
        }
    }
}

/// The place at which a part is found is the first at which it stands; where it
/// stands nowhere, it is the end.
pub proof fn law_first_place_of_a_part(s: Seq<char>, part: Seq<char>, at: int)
    requires
        part.len() > 0,
    ensures
        0 <= find(s, part) <= s.len(),
        find(s, part) < s.len() ==> stands_at(s, part, find(s, part)),
        stands_at(s, part, at) ==> find(s, part) <= at,
    decreases s.len(),
{
    if s.len() > 0 && !has_prefix(s, part) {
        let rest = s.skip(1);
        law_first_place_of_a_part(rest, part, at - 1);
        let k = find(rest, part);
        if k < rest.len() {
            assert(s.subrange(k + 1, k + 1 + part.len() as int) =~= rest.subrange(
                k,
                k + part.len() as int,
            ));
        }
        if stands_at(s, part, at) {
            if at == 0 {
                assert(s.take(part.len() as int) =~= s.subrange(0, part.len() as int));
            } else {
                assert(rest.subrange(at - 1, at - 1 + part.len() as int) =~= s.subrange(
                    at,
                    at + part.len() as int,
                ));
            }
        }
    } else if s.len() > 0 {
        assert(s.take(part.len() as int) =~= s.subrange(0, part.len() as int));
    }
}

/// A text is cut where the separator stands first: what comes before has none, and
/// the two parts with the separator between them are the text. Without a separator
/// it is not cut.
pub proof fn law_texts_are_cut_once(a: Seq<char>, c: char, b: Seq<char>)
    requires
        forall|i: int| 0 <= i < a.len() ==> #[trigger] a[i] != c,
    ensures
        cut_at(a + seq![c] + b, c) == Some((a, b)),
        cut_at(a, c) is None,
        first_index(a + seq![c] + b, c) == a.len(),
        first_index(a, c) == a.len(),
{
    let s = a + seq![c] + b;
    let n = a.len() as int;
    assert(s[n] == c);
    assert forall|j: int| 0 <= j < n implies s[j] != c by {
        assert(s[j] == a[j]);
    }
    lemma_first_index_is(s, c, n);
    lemma_first_index_is(a, c, n);
    assert(s.take(n) =~= a);
    assert(s.skip(n + 1) =~= b);
}

/// Parts are joined in their order, with the separator between each two.
pub proof fn law_parts_are_joined_in_order(parts: Seq<Seq<char>>, part: Seq<char>, c: char)
    ensures
        joined(Seq::empty(), c) == Seq::<char>::empty(),
        joined(seq![part], c) == part,
        parts.len() > 0 ==> joined(parts.push(part), c) == joined(parts, c) + seq![c] + part,
{
    if parts.len() > 0 {
        assert(parts.push(part).drop_last() =~= parts);
        assert(joined(parts, c).push(c) + part =~= joined(parts, c) + seq![c] + part);
    }
}

// ---------------------------------------------------------------------------
// White space at the ends

proof fn lemma_trim_front_all_white(s: Seq<char>)
    requires
        forall|i: int| 0 <= i < s.len() ==> is_white_space(#[trigger] s[i]),
    ensures
        trim_front(s).len() == 0,
    decreases s.len(),
{
    if s.len() > 0 {
        lemma_trim_front_all_white(s.skip(1));
    }
}

proof fn lemma_trim_front_behind(s: Seq<char>, i: int)
    requires
        0 <= i < s.len(),
        !is_white_space(s[i]),
        forall|j: int| 0 <= j < i ==> is_white_space(#[trigger] s[j]),
    ensures
        trim_front(s) == s.skip(i),
    decreases s.len(),
{
    if i > 0 {
        lemma_trim_front_behind(s.skip(1), i - 1);
        assert(s.skip(1).skip(i - 1) =~= s.skip(i));
    } else {
        assert(s.skip(0) =~= s);
    }
}

proof fn lemma_trim_back_before(s: Seq<char>, k: int)
    requires
        0 < k <= s.len(),
        !is_white_space(s[k - 1]),
        forall|j: int| k <= j < s.len() ==> is_white_space(#[trigger] s[j]),
    ensures
        trim_back(s) == s.take(k),
    decreases s.len(),
{
    if k < s.len() {
        lemma_trim_back_before(s.drop_last(), k);
        assert(s.drop_last().take(k) =~= s.take(k));
    } else {
        assert(s.take(k) =~= s);
    }
}

/// Trimming takes off what is white at the two ends and nothing else: what is
/// between the first and the last character that is not white stays as it is.
pub proof fn law_only_white_ends_go(front: Seq<char>, middle: Seq<char>, back: Seq<char>)
    requires
        forall|i: int| 0 <= i < front.len() ==> is_white_space(#[trigger] front[i]),
        forall|i: int| 0 <= i < back.len() ==> is_white_space(#[trigger] back[i]),
        middle.len() > 0 ==> !is_white_space(middle[0]) && !is_white_space(middle.last()),
    ensures
        trimmed(front + middle + back) == middle,
{
    let s = front + middle + back;
    if middle.len() == 0 {
        assert forall|i: int| 0 <= i < s.len() implies is_white_space(#[trigger] s[i]) by {
            if i < front.len() {
                assert(s[i] == front[i]);
            } else {
                assert(s[i] == back[i - front.len()]);
            }
        }
        lemma_trim_front_all_white(s);
        assert(trimmed(s) =~= middle);
    } else {
        let n = front.len() as int;
        assert(s[n] == middle[0]);
        assert forall|j: int| 0 <= j < n implies is_white_space(#[trigger] s[j]) by {
            assert(s[j] == front[j]);
        }
        lemma_trim_front_behind(s, n);
        let t = s.skip(n);
        assert(t =~= middle + back);
        let k = middle.len() as int;
        assert(t[k - 1] == middle.last());
        assert forall|j: int| k <= j < t.len() implies is_white_space(#[trigger] t[j]) by {
            assert(t[j] == back[j - k]);
        }
        lemma_trim_back_before(t, k);
        assert(t.take(k) =~= middle);
    }
}

/// Every text is white space, then what is left, then white space.
proof fn lemma_trimmed_between(s: Seq<char>) -> (r: (Seq<char>, Seq<char>))
    ensures
        s == r.0 + trimmed(s) + r.1,
        forall|i: int| 0 <= i < r.0.len() ==> is_white_space(#[trigger] r.0[i]),
        forall|i: int| 0 <= i < r.1.len() ==> is_white_space(#[trigger] r.1[i]),
        trimmed(s).len() > 0 ==> !is_white_space(trimmed(s)[0]) && !is_white_space(
            trimmed(s).last(),
        ),
{
    let front = lemma_front_part(s);
    let t = trim_front(s);
    let back = lemma_back_part(t);
    assert(s =~= front + trimmed(s) + back);
    if trimmed(s).len() > 0 {
        assert(trimmed(s)[0] == t[0]);
    }
    (front, back)
}

proof fn lemma_front_part(s: Seq<char>) -> (front: Seq<char>)
    ensures
        s == front + trim_front(s),
        forall|i: int| 0 <= i < front.len() ==> is_white_space(#[trigger] front[i]),
        trim_front(s).len() > 0 ==> !is_white_space(trim_front(s)[0]),
    decreases s.len(),
{
    if s.len() > 0 && is_white_space(s[0]) {
        let f = lemma_front_part(s.skip(1));
        let front = seq![s[0]] + f;
        assert(s =~= seq![s[0]] + s.skip(1));
        assert(s =~= front + trim_front(s));
        assert forall|i: int| 0 <= i < front.len() implies is_white_space(#[trigger] front[i]) by {
            if i > 0 {
                assert(front[i] == f[i - 1]);
            }
        }
        front
    } else {
        assert(s =~= Seq::<char>::empty() + s);
        Seq::empty()
    }
}

proof fn lemma_back_part(s: Seq<char>) -> (back: Seq<char>)
    ensures
        s == trim_back(s) + back,
        forall|i: int| 0 <= i < back.len() ==> is_white_space(#[trigger] back[i]),
        trim_back(s).len() > 0 ==> !is_white_space(trim_back(s).last()),
    decreases s.len(),
{
    if s.len() > 0 && is_white_space(s.last()) {
        let b = lemma_back_part(s.drop_last());
        let back = b.push(s.last());
        assert(s =~= s.drop_last().push(s.last()));
        assert(s =~= trim_back(s) + back);
        back
    } else {
        assert(s =~= s + Seq::<char>::empty());
        Seq::empty()
    }
}

// ---------------------------------------------------------------------------
// File names

proof fn lemma_cleaned_concat(a: Seq<char>, b: Seq<char>)
    ensures
        cleaned(a + b) == cleaned(a) + cleaned(b),
{
    let plain = |c: char| !is_control(c);
    lemma_filter_concat(a, b, plain);
    assert(cleaned(a + b) =~= cleaned(a) + cleaned(b));
}

proof fn lemma_cleaned_same(s: Seq<char>)
    requires
        forall|i: int|
            0 <= i < s.len() ==> !is_control(#[trigger] s[i]) && s[i] != '/' && s[i] != '\\',
    ensures
        cleaned(s) == s,
{
    lemma_filter_all(s, |c: char| !is_control(c));
    assert(cleaned(s) =~= s);
}

proof fn lemma_no_double_dots(s: Seq<char>)
    requires
        forall|i: int, j: int|
            0 <= i && j == i + 1 && j < s.len() ==> !(#[trigger] s[i] == '.' && #[trigger] s[j]
                == '.'),
    ensures
        without_double_dots(s) == s,
    decreases s.len(),
{
    if s.len() > 0 {
        let rest = s.skip(1);
        assert forall|i: int, j: int|
            0 <= i && j == i + 1 && j < rest.len() implies !(#[trigger] rest[i] == '.'
            && #[trigger] rest[j] == '.') by {
            assert(rest[i] == s[i + 1] && rest[j] == s[j + 1]);
        }
        lemma_no_double_dots(rest);
        if s.len() >= 2 {
            assert(!(s[0] == '.' && s[1] == '.'));
        }
        assert(seq![s[0]] + rest =~= s);
    } else {
        assert(s =~= Seq::<char>::empty());
    }
}

proof fn lemma_dots_behind(a: Seq<char>, b: Seq<char>)
    requires
        forall|i: int, j: int|
            0 <= i && j == i + 1 && j < a.len() ==> !(#[trigger] a[i] == '.' && #[trigger] a[j]
                == '.'),
        a.len() > 0 ==> a.last() != '.',
    ensures
        without_double_dots(a + b) == a + without_double_dots(b),
    decreases a.len(),
{
    if a.len() == 0 {
        assert(a + b =~= b);
        assert(a + without_double_dots(b) =~= without_double_dots(b));
    } else {
        let s = a + b;
        let rest = a.skip(1);
        assert forall|i: int, j: int|
            0 <= i && j == i + 1 && j < rest.len() implies !(#[trigger] rest[i] == '.'
            && #[trigger] rest[j] == '.') by {
            assert(rest[i] == a[i + 1] && rest[j] == a[j + 1]);
        }
        lemma_dots_behind(rest, b);
        assert(s.skip(1) =~= rest + b);
        if a.len() >= 2 {
            assert(!(a[0] == '.' && a[1] == '.'));
        }
        assert(seq![a[0]] + (rest + without_double_dots(b)) =~= a + without_double_dots(b));
    }
}

/// A name that is safe as it is, is kept as it is; one that is only too long keeps
/// its first 255 characters.
pub proof fn law_safe_name_is_kept(name: Seq<char>)
    requires
        name.len() > 0,
        forall|i: int|
            0 <= i < name.len() ==> !(0 <= #[trigger] name[i] as int && (name[i] as int) < 0x20)
                && !(0x7f <= name[i] as int && (name[i] as int) < 0xa0) && name[i] != '/' && name[i]
                != '\\',
        forall|i: int, j: int|
            0 <= i && j == i + 1 && j < name.len() ==> !(#[trigger] name[i] == '.'
                && #[trigger] name[j] == '.'),
        !is_white_space(name[0]),
        !is_white_space(name.last()),
    ensures
        name.len() <= 255 ==> safe_filename(name) == name,
        name.len() > 255 ==> safe_filename(name) == name.take(255),
{
    assert forall|i: int| 0 <= i < name.len() implies !is_control(#[trigger] name[i]) && name[i]
        != '/' && name[i] != '\\' by {
        law_kinds_of_characters(name[i]);
    }
    lemma_cleaned_same(name);
    law_only_white_ends_go(Seq::empty(), name, Seq::empty());
    assert(Seq::<char>::empty() + name + Seq::<char>::empty() =~= name);
    lemma_no_double_dots(name);
}

/// A control character is left out, wherever it stands.
pub proof fn law_control_characters_go(a: Seq<char>, c: char, b: Seq<char>)
    requires
        0 <= c as int && (c as int) < 0x20 || 0x7f <= c as int && (c as int) < 0xa0,
    ensures
        safe_filename(a + seq![c] + b) == safe_filename(a + b),
{
    law_kinds_of_characters(c);
    lemma_cleaned_concat(a + seq![c], b);
    lemma_cleaned_concat(a, seq![c]);
    lemma_cleaned_concat(a, b);
    lemma_filter_none(seq![c], |c: char| !is_control(c));
    assert(cleaned(seq![c]) =~= Seq::<char>::empty());
    assert(cleaned(a + seq![c] + b) =~= cleaned(a + b));
}

/// What separates the parts of a path is shown as an underscore, wherever it stands.
pub proof fn law_separators_show_as_underscores(a: Seq<char>, c: char, b: Seq<char>)
    requires
        c == '/' || c == '\\',
    ensures
        safe_filename(a + seq![c] + b) == safe_filename(a + seq!['_'] + b),
{
    lemma_cleaned_concat(a + seq![c], b);
    lemma_cleaned_concat(a, seq![c]);
    lemma_cleaned_concat(a + seq!['_'], b);
    lemma_cleaned_concat(a, seq!['_']);
    lemma_filter_all(seq![c], |c: char| !is_control(c));
    lemma_filter_all(seq!['_'], |c: char| !is_control(c));
    assert(cleaned(seq![c]) =~= seq!['_']);
    assert(cleaned(seq!['_']) =~= seq!['_']);
}

/// White space in front of a name, or behind it, makes no difference.
pub proof fn law_white_ends_make_no_difference(name: Seq<char>, c: char)
    requires
        is_white_space(c),
    ensures
        safe_filename(seq![c] + name) == safe_filename(name),
        safe_filename(name.push(c)) == safe_filename(name),
{
    let s = cleaned(name);
    let (front, back) = lemma_trimmed_between(s);
    lemma_cleaned_concat(seq![c], name);
    lemma_cleaned_concat(name, seq![c]);
    assert(name.push(c) =~= name + seq![c]);
    if is_control(c) {
        lemma_filter_none(seq![c], |c: char| !is_control(c));
        assert(cleaned(seq![c]) =~= Seq::<char>::empty());
        assert(cleaned(seq![c] + name) =~= s);
        assert(cleaned(name.push(c)) =~= s);
    } else {
        lemma_filter_all(seq![c], |c: char| !is_control(c));
        assert(cleaned(seq![c]) =~= seq![c]);
        let wide = seq![c] + front;
        assert forall|i: int| 0 <= i < wide.len() implies is_white_space(#[trigger] wide[i]) by {
            if i > 0 {
                assert(wide[i] == front[i - 1]);
            }
        }
        law_only_white_ends_go(wide, trimmed(s), back);
        assert(wide + trimmed(s) + back =~= cleaned(seq![c] + name));
        law_only_white_ends_go(front, trimmed(s), back.push(c));
        assert(front + trimmed(s) + back.push(c) =~= cleaned(name.push(c)));
    }
}

/// A name with nothing in it but white space and control characters is called
/// `download.bin`.
pub proof fn law_empty_name_has_a_default(name: Seq<char>)
    requires
        forall|i: int|
            0 <= i < name.len() ==> is_white_space(#[trigger] name[i]) || is_control(name[i]),
    ensures
        safe_filename(name) == "download.bin"@,
    decreases name.len(),
{
    if name.len() == 0 {
        lemma_cleaned_same(name);
        law_only_white_ends_go(name, name, name);
        assert(name + name + name =~= name);
    } else {
        let init = name.drop_last();
        law_empty_name_has_a_default(init);
        assert(init.push(name.last()) =~= name);
        assert(is_white_space(name[name.len() - 1]) || is_control(name[name.len() - 1]));
        law_kinds_of_characters(name.last());
        if is_white_space(name.last()) {
            law_white_ends_make_no_difference(init, name.last());
        } else {
            law_control_characters_go(init, name.last(), Seq::empty());
            assert(init + seq![name.last()] + Seq::<char>::empty() =~= name);
            assert(init + Seq::<char>::empty() =~= init);
        }
    }
}

proof fn lemma_clean_name(s: Seq<char>)
    requires
        s.len() > 0,
        forall|i: int|
            0 <= i < s.len() ==> !is_control(#[trigger] s[i]) && s[i] != '/' && s[i] != '\\',
        !is_white_space(s[0]),
        !is_white_space(s.last()),
    ensures
        safe_filename(s) == at_most(without_double_dots(s), 255),
{
    let none = Seq::<char>::empty();
    lemma_cleaned_same(s);
    law_only_white_ends_go(none, s, none);
    assert(none + s + none =~= s);
}

proof fn lemma_underscore_for_dots(a: Seq<char>, b: Seq<char>)
    requires
        forall|i: int, j: int|
            0 <= i && j == i + 1 && j < a.len() ==> !(#[trigger] a[i] == '.' && #[trigger] a[j]
                == '.'),
        a.len() > 0 ==> a.last() != '.',
    ensures
        without_double_dots(a + seq!['.', '.'] + b) == without_double_dots(a + seq!['_'] + b),
{
    let two = seq!['.', '.'] + b;
    let one = seq!['_'] + b;
    lemma_dots_behind(a, two);
    lemma_dots_behind(a, one);
    assert(a + seq!['.', '.'] + b =~= a + two);
    assert(a + seq!['_'] + b =~= a + one);
    assert(two.skip(2) =~= b);
    assert(one.skip(1) =~= b);
    assert(without_double_dots(two) == seq!['_'] + without_double_dots(b));
    assert(without_double_dots(one) == seq!['_'] + without_double_dots(b));
}

/// Two dots in a row, the first such two, are shown as an underscore.
pub proof fn law_double_dots_show_as_underscores(a: Seq<char>, b: Seq<char>)
    requires
        forall|i: int|
            0 <= i < a.len() ==> !is_control(#[trigger] a[i]) && a[i] != '/' && a[i] != '\\',
        forall|i: int|
            0 <= i < b.len() ==> !is_control(#[trigger] b[i]) && b[i] != '/' && b[i] != '\\',
        forall|i: int, j: int|
            0 <= i && j == i + 1 && j < a.len() ==> !(#[trigger] a[i] == '.' && #[trigger] a[j]
                == '.'),
        a.len() > 0 ==> !is_white_space(a[0]) && a.last() != '.',
        b.len() > 0 ==> !is_white_space(b.last()),
    ensures
        safe_filename(a + seq!['.', '.'] + b) == safe_filename(a + seq!['_'] + b),
{
    let dots = a + seq!['.', '.'] + b;
    let line = a + seq!['_'] + b;
    assert forall|i: int| 0 <= i < dots.len() implies !is_control(#[trigger] dots[i]) && dots[i]
        != '/' && dots[i] != '\\' by {
        if i < a.len() {
            assert(dots[i] == a[i]);
        } else if i >= a.len() + 2 {
            assert(dots[i] == b[i - a.len() - 2]);
        }
    }
    assert forall|i: int| 0 <= i < line.len() implies !is_control(#[trigger] line[i]) && line[i]
        != '/' && line[i] != '\\' by {
        if i < a.len() {
            assert(line[i] == a[i]);
        } else if i >= a.len() + 1 {
            assert(line[i] == b[i - a.len() - 1]);
        }
    }
    if a.len() > 0 {
        assert(dots[0] == a[0] && line[0] == a[0]);
    }
    if b.len() > 0 {
        assert(dots.last() == b.last() && line.last() == b.last());
    }
    lemma_clean_name(dots);
    lemma_clean_name(line);
    lemma_underscore_for_dots(a, b);
}

// ---------------------------------------------------------------------------
// Names in an archive

proof fn lemma_pieces_of_two(a: Seq<char>, b: Seq<char>, c: char)
    ensures
        pieces(a + seq![c] + b, c) == pieces(a, c) + pieces(b, c),
    decreases a.len(),
{
    let s = a + seq![c] + b;
    let i = first_index(a, c);
    crate::text::lemma_first_index(a, c);
    assert forall|j: int| 0 <= j < i implies s[j] != c by {
        assert(s[j] == a[j]);
    }
    if i < a.len() {
        assert(s[i] == a[i]);
    } else {
        assert(s[i] == c);
    }
    lemma_first_index_is(s, c, i);
    assert(s.take(i) =~= a.take(i));
    if i < a.len() {
        lemma_pieces_of_two(a.skip(i + 1), b, c);
        assert(s.skip(i + 1) =~= a.skip(i + 1) + seq![c] + b);
        assert(pieces(s, c) =~= pieces(a, c) + pieces(b, c));
    } else {
        assert(s.skip(i + 1) =~= b);
        assert(s.take(i) =~= a);
        assert(pieces(s, c) =~= pieces(a, c) + pieces(b, c));
    }
}

proof fn lemma_one_piece(a: Seq<char>, c: char)
    requires
        forall|i: int| 0 <= i < a.len() ==> #[trigger] a[i] != c,
    ensures
        pieces(a, c) == seq![a],
{
    lemma_first_index_is(a, c, a.len() as int);
}

/// Between two separators, or before the first or after the last, stands one piece;
/// cutting a text where a separator stands gives the pieces of its two parts.
pub proof fn law_pieces_lie_between_separators(a: Seq<char>, b: Seq<char>, c: char)
    ensures
        pieces(a + seq![c] + b, c) == pieces(a, c) + pieces(b, c),
        (forall|i: int| 0 <= i < a.len() ==> #[trigger] a[i] != c) ==> pieces(a, c) == seq![a],
{
    lemma_pieces_of_two(a, b, c);
    if forall|i: int| 0 <= i < a.len() ==> #[trigger] a[i] != c {
        lemma_one_piece(a, c);
    }
}

proof fn lemma_joined_front(first: Seq<char>, rest: Seq<Seq<char>>, c: char)
    requires
        rest.len() > 0,
    ensures
        joined(seq![first] + rest, c) == first + seq![c] + joined(rest, c),
    decreases rest.len(),
{
    let all = seq![first] + rest;
    if rest.len() == 1 {
        assert(all.drop_last() =~= seq![first]);
        assert(joined(seq![first], c) == first);
        assert(joined(all, c) =~= first + seq![c] + joined(rest, c));
    } else {
        lemma_joined_front(first, rest.drop_last(), c);
        let init = joined(rest.drop_last(), c);
        assert(all.drop_last() =~= seq![first] + rest.drop_last());
        assert(all.last() == rest.last());
        assert(joined(rest, c) == init.push(c) + rest.last());
        assert(joined(all, c) == (first + seq![c] + init).push(c) + rest.last());
        assert((first + seq![c] + init).push(c) + rest.last() =~= first + seq![c] + (init.push(c)
            + rest.last()));
    }
}

proof fn lemma_parts_of_two(a: Seq<char>, b: Seq<char>)
    ensures
        safe_parts(a + seq!['/'] + b) == safe_parts(a) + safe_parts(b),
{
    let named = |p: Seq<char>| names_something(p);
    assert(one_separator(a + seq!['/'] + b) =~= one_separator(a) + seq!['/'] + one_separator(b));
    lemma_pieces_of_two(one_separator(a), one_separator(b), '/');
    lemma_filter_concat(pieces(one_separator(a), '/'), pieces(one_separator(b), '/'), named);
    assert(safe_parts(a + seq!['/'] + b) =~= safe_parts(a) + safe_parts(b));
}

proof fn lemma_kept_parts(a: Seq<char>)
    ensures
        seq![a].filter(|p: Seq<char>| names_something(p)) == if names_something(a) {
            seq![a]
        } else {
            Seq::<Seq<char>>::empty()
        },
{
    let named = |p: Seq<char>| names_something(p);
    if names_something(a) {
        lemma_filter_all(seq![a], named);
    } else {
        lemma_filter_none(seq![a], named);
    }
}

#[verifier::spinoff_prover]
proof fn lemma_parts_of_one(a: Seq<char>)
    requires
        forall|i: int| 0 <= i < a.len() ==> #[trigger] a[i] != '/' && a[i] != '\\',
    ensures
        safe_parts(a) == if a.len() > 0 && a != "."@ && a != ".."@ {
            seq![safe_filename(a)]
        } else {
            Seq::<Seq<char>>::empty()
        },
{
    assert(one_separator(a) == a) by {
        assert(one_separator(a) =~= a);
    }
    lemma_one_piece(a, '/');
    lemma_kept_parts(a);
    let kept = pieces(one_separator(a), '/').filter(|p: Seq<char>| names_something(p));
    let safe = kept.map_values(|p: Seq<char>| safe_filename(p));
    assert(safe == safe_parts(a));
    assert(safe.len() == kept.len());
    if names_something(a) {
        assert(kept[0] == a);
        assert(safe[0] == safe_filename(a));
        assert(safe =~= seq![safe_filename(a)]);
    } else {
        assert(safe =~= Seq::<Seq<char>>::empty());
    }
}

/// A backslash in a path is a slash.
pub proof fn law_backslash_is_a_slash(a: Seq<char>, b: Seq<char>)
    ensures
        safe_entry(a + seq!['\\'] + b) == safe_entry(a + seq!['/'] + b),
{
    assert(one_separator(a + seq!['\\'] + b) =~= one_separator(a + seq!['/'] + b));
}

/// A name without a separator is an entry of that name, made safe; one that names
/// nothing is called `file.bin`.
pub proof fn law_entry_of_one_part(a: Seq<char>)
    requires
        forall|i: int| 0 <= i < a.len() ==> #[trigger] a[i] != '/' && a[i] != '\\',
    ensures
        safe_entry(a) == if a.len() == 0 || a == "."@ || a == ".."@ {
            "file.bin"@
        } else {
            safe_filename(a)
        },
{
    lemma_parts_of_one(a);
}

/// A part of a path that names something stands in the entry in its place, made
/// safe, with a slash behind it.
pub proof fn law_entry_keeps_its_parts(a: Seq<char>, b: Seq<char>, rest: Seq<char>)
    requires
        forall|i: int| 0 <= i < a.len() ==> #[trigger] a[i] != '/' && a[i] != '\\',
        forall|i: int| 0 <= i < b.len() ==> #[trigger] b[i] != '/' && b[i] != '\\',
        a.len() > 0 && a != "."@ && a != ".."@,
        b.len() > 0 && b != "."@ && b != ".."@,
    ensures
        safe_entry(a + seq!['/'] + b) == safe_filename(a) + seq!['/'] + safe_filename(b),
        safe_entry(a + seq!['/'] + (b + seq!['/'] + rest)) == safe_filename(a) + seq!['/']
            + safe_entry(b + seq!['/'] + rest),
{
    lemma_parts_of_one(a);
    lemma_parts_of_one(b);
    lemma_parts_of_two(a, b);
    lemma_joined_front(safe_filename(a), seq![safe_filename(b)], '/');
    let more = b + seq!['/'] + rest;
    lemma_parts_of_two(b, rest);
    lemma_parts_of_two(a, more);
    lemma_joined_front(safe_filename(a), safe_parts(more), '/');
}

/// A part of a path that names nothing makes no difference, wherever it stands:
/// none leads up.
pub proof fn law_entry_skips_what_names_nothing(a: Seq<char>, nothing: Seq<char>, b: Seq<char>)
    requires
        nothing.len() == 0 || nothing == "."@ || nothing == ".."@,
    ensures
        safe_entry(nothing + seq!['/'] + b) == safe_entry(b),
        safe_entry(a + seq!['/'] + nothing) == safe_entry(a),
        safe_entry(a + seq!['/'] + (nothing + seq!['/'] + b)) == safe_entry(a + seq!['/'] + b),
{
    reveal_strlit(".");
    reveal_strlit("..");
    lemma_parts_of_one(nothing);
    lemma_parts_of_two(nothing, b);
    lemma_parts_of_two(a, nothing);
    lemma_parts_of_two(a, nothing + seq!['/'] + b);
    lemma_parts_of_two(a, b);
    assert(safe_parts(nothing + seq!['/'] + b) =~= safe_parts(b));
    assert(safe_parts(a + seq!['/'] + nothing) =~= safe_parts(a));
}

} // verus!
