//! What the dashboard asks for and what comes of it: numbers and settings in a form,
//! the shares that are made of uploads, their changes and their removal.

use crate::auth::{accepts, argon2_accepts, argon2_text, too_many_lanes};
use crate::db::{opt_view, EntryRowView, EntryView, RegistryView, ShareView};
use crate::error::ErrorView;
use crate::names::{safe_entry, safe_filename};
use crate::shares::{
    archive_name, creation, download_limit, entry_name, expiry, field_named,
    folder_creation, grown, hash_fits, removal, shown_name, sizes_sum, too_long, update,
    CreatedView, Field, FolderView, FormView, RemovalView, UpdateShareRequest, UploadView,
};
use crate::text::{
    all_digits, bounded_value, decimal, digits_value, has_prefix, is_digit, lemma_decimal_reads_back,
    lowercase, signed_decimal, signed_value, stands_at, unsigned_value,
};
use vstd::prelude::*;
use vstd::utf8::encode_utf8;

verus! {

// ---------------------------------------------------------------------------
// Numbers

/// A digit behind a number makes it ten times as much, and adds what it stands for.
pub proof fn law_digits_by_tens(s: Seq<char>, c: char)
    requires
        '0' <= c <= '9',
    ensures
        digits_value(Seq::empty()) == 0,
        digits_value(s.push(c)) == 10 * digits_value(s) + (c as int - 48),
{
    assert(s.push(c).drop_last() =~= s);
}

/// A number is written in digits that stand for it, and without a zero in front.
pub proof fn law_numbers_are_written_shortest(n: nat)
    ensures
        decimal(n).len() > 0,
        forall|i: int| 0 <= i < decimal(n).len() ==> '0' <= #[trigger] decimal(n)[i] <= '9',
        digits_value(decimal(n)) == n,
        n > 0 ==> decimal(n)[0] != '0',
        n == 0 ==> decimal(n) == seq!['0'],
    decreases n,
{
    lemma_decimal_reads_back(n);
    assert forall|i: int| 0 <= i < decimal(n).len() implies '0' <= #[trigger] decimal(n)[i]
        <= '9' by {
        assert(is_digit(decimal(n)[i]));
    }
    if n >= 10 {
        law_numbers_are_written_shortest(n / 10);
        assert(decimal(n)[0] == decimal(n / 10)[0]);
    }
}

/// What is read as a number: digits, at least one and nothing else, that stand for
/// no more than the limit.
pub proof fn law_what_is_a_number(s: Seq<char>, max: int)
    ensures
        bounded_value(s, max) is Some <==> s.len() > 0 && (forall|i: int|
            0 <= i < s.len() ==> '0' <= #[trigger] s[i] <= '9') && digits_value(s) <= max,
        bounded_value(s, max) is Some ==> bounded_value(s, max)->0 == digits_value(s),
{
    if forall|i: int| 0 <= i < s.len() ==> '0' <= #[trigger] s[i] <= '9' {
        assert(all_digits(s));
    }
    if all_digits(s) {
        assert forall|i: int| 0 <= i < s.len() implies '0' <= #[trigger] s[i] <= '9' by {
            assert(is_digit(s[i]));
        }
    }
}

/// A number may have a plus sign in front of it, which makes no difference, and one
/// with a sign may have a minus sign, which makes it negative.
pub proof fn law_signs_of_numbers(s: Seq<char>, max: int)
    ensures
        unsigned_value(seq!['+'] + s, max) == bounded_value(s, max),
        s.len() == 0 || s[0] != '+' ==> unsigned_value(s, max) == bounded_value(s, max),
        signed_value(seq!['+'] + s) == bounded_value(s, 0x7fff_ffff_ffff_ffff),
        signed_value(seq!['-'] + s) == match bounded_value(s, 0x8000_0000_0000_0000) {
            Some(n) => Some(-n),
            None => None,
        },
        s.len() == 0 || (s[0] != '+' && s[0] != '-') ==> signed_value(s) == bounded_value(
            s,
            0x7fff_ffff_ffff_ffff,
        ),
{
    assert((seq!['+'] + s).skip(1) =~= s);
    assert((seq!['-'] + s).skip(1) =~= s);
}

proof fn lemma_decimal_is_read(n: nat)
    ensures
        n <= i64::MAX ==> signed_value(decimal(n)) == Some(n as int),
        n > i64::MAX ==> signed_value(decimal(n)) is None,
        decimal(n) != "never"@ && decimal(n) != ""@ && decimal(n) != "1h"@ && decimal(n) != "24h"@
            && decimal(n) != "7d"@ && decimal(n) != "30d"@ && decimal(n) != "unlimited"@,
{
    lemma_decimal_reads_back(n);
    let d = decimal(n);
    assert(is_digit(d[0]));
    assert(is_digit(d[d.len() - 1]));
    reveal_strlit("never");
    reveal_strlit("");
    reveal_strlit("1h");
    reveal_strlit("24h");
    reveal_strlit("7d");
    reveal_strlit("30d");
    reveal_strlit("unlimited");
    assert("never"@.last() == 'r');
    assert("1h"@.last() == 'h');
    assert("24h"@.last() == 'h');
    assert("7d"@.last() == 'd');
    assert("30d"@.last() == 'd');
    assert("unlimited"@.last() == 'd');
}

/// What a signed number is written as is read as that number.
pub proof fn law_signed_numbers_read_back(n: int)
    requires
        i64::MIN <= n <= i64::MAX,
    ensures
        signed_value(signed_decimal(n)) == Some(n),
        n < 0 ==> signed_decimal(n) == seq!['-'] + decimal((-n) as nat),
        n >= 0 ==> signed_decimal(n) == decimal(n as nat),
{
    if n < 0 {
        lemma_decimal_reads_back((-n) as nat);
        law_signs_of_numbers(decimal((-n) as nat), 0);
    } else {
        lemma_decimal_is_read(n as nat);
    }
}

// ---------------------------------------------------------------------------
// Settings

/// A share that is to last so many seconds expires when they have passed, counted
/// from now. No number of seconds but a positive one is taken, and none that leads
/// beyond the end of time.
pub proof fn law_expiry_in_seconds(n: nat, now: i64)
    ensures
        expiry(decimal(n), now) == if n > i64::MAX {
            Err::<Option<i64>, ErrorView>(ErrorView::BadRequest("invalid expiry value"@))
        } else if n == 0 {
            Err(ErrorView::BadRequest("expiry must be positive"@))
        } else if now + n > i64::MAX {
            Err(ErrorView::BadRequest("expiry is too large"@))
        } else {
            Ok(Some((now + n) as i64))
        },
        0 < n <= 0x8000_0000_0000_0000 ==> expiry(seq!['-'] + decimal(n), now) == Err::<
            Option<i64>,
            ErrorView,
        >(ErrorView::BadRequest("expiry must be positive"@)),
        expiry(seq!['+'] + decimal(n), now) == expiry(decimal(n), now),
{
    lemma_decimal_is_read(n);
    lemma_decimal_reads_back(n);
    law_signs_of_numbers(decimal(n), 0);
    lemma_signed_is_no_word(decimal(n));
    assert(is_digit(decimal(n)[0]));
}

proof fn lemma_signed_is_no_word(s: Seq<char>)
    ensures
        ({
            let a = seq!['-'] + s;
            let b = seq!['+'] + s;
            &&& a != "never"@ && a != ""@ && a != "1h"@ && a != "24h"@ && a != "7d"@ && a != "30d"@
                && a != "unlimited"@
            &&& b != "never"@ && b != ""@ && b != "1h"@ && b != "24h"@ && b != "7d"@ && b != "30d"@
                && b != "unlimited"@
        }),
{
    reveal_strlit("never");
    reveal_strlit("");
    reveal_strlit("1h");
    reveal_strlit("24h");
    reveal_strlit("7d");
    reveal_strlit("30d");
    reveal_strlit("unlimited");
    let a = seq!['-'] + s;
    let b = seq!['+'] + s;
    assert(a[0] == '-' && b[0] == '+');
    assert("never"@[0] == 'n' && "1h"@[0] == '1' && "24h"@[0] == '2' && "7d"@[0] == '7');
    assert("30d"@[0] == '3' && "unlimited"@[0] == 'u');
    assert(""@.len() == 0);
}

/// The words for an expiry: an hour, a day, a week and thirty days are as many
/// seconds as they have, and `never` is no expiry, as is nothing at all.
pub proof fn law_words_for_an_expiry(now: i64)
    ensures
        expiry("never"@, now) == Ok::<Option<i64>, ErrorView>(None),
        expiry(""@, now) == Ok::<Option<i64>, ErrorView>(None),
        expiry("1h"@, now) == expiry(decimal(60 * 60), now),
        expiry("24h"@, now) == expiry(decimal(24 * 60 * 60), now),
        expiry("7d"@, now) == expiry(decimal(7 * 24 * 60 * 60), now),
        expiry("30d"@, now) == expiry(decimal(30 * 24 * 60 * 60), now),
{
    reveal_strlit("never");
    reveal_strlit("");
    reveal_strlit("1h");
    reveal_strlit("24h");
    reveal_strlit("7d");
    reveal_strlit("30d");
    assert("1h"@.len() == 2 && "24h"@.len() == 3 && "7d"@.len() == 2 && "30d"@.len() == 3);
    assert("1h"@[0] == '1' && "7d"@[0] == '7' && "24h"@[0] == '2' && "30d"@[0] == '3');
    assert("never"@.len() == 5 && ""@.len() == 0);
    law_expiry_in_seconds(60 * 60, now);
    law_expiry_in_seconds(24 * 60 * 60, now);
    law_expiry_in_seconds(7 * 24 * 60 * 60, now);
    law_expiry_in_seconds(30 * 24 * 60 * 60, now);
}

/// An expiry that is no word and no number is refused, and so is a limit.
pub proof fn law_settings_are_words_or_numbers(s: Seq<char>, i: int, now: i64)
    requires
        0 <= i < s.len(),
        !('0' <= s[i] <= '9'),
        i > 0 || (s[i] != '+' && s[i] != '-'),
    ensures
        s != "never"@ && s != "1h"@ && s != "24h"@ && s != "7d"@ && s != "30d"@ ==> expiry(s, now)
            == Err::<Option<i64>, ErrorView>(ErrorView::BadRequest("invalid expiry value"@)),
        s != "unlimited"@ ==> download_limit(s) == Err::<Option<i64>, ErrorView>(
            ErrorView::BadRequest("invalid max_downloads value"@),
        ),
{
    reveal_strlit("");
    assert(s != ""@);
    if s[0] == '+' || s[0] == '-' {
        assert(s.skip(1)[i - 1] == s[i]);
        assert(!is_digit(s.skip(1)[i - 1]));
        assert(!all_digits(s.skip(1)));
    } else {
        assert(!is_digit(s[i]));
        assert(!all_digits(s));
    }
}

/// The same setting, given later, leads to an expiry that is later by as much.
pub proof fn law_expiry_moves_with_the_clock(s: Seq<char>, now: i64, later: i64)
    requires
        expiry(s, now) is Ok,
        expiry(s, later) is Ok,
    ensures
        expiry(s, now)->Ok_0 is Some <==> expiry(s, later)->Ok_0 is Some,
        expiry(s, now)->Ok_0 is Some ==> expiry(s, later)->Ok_0->0 - expiry(s, now)->Ok_0->0 == later
            - now,
        expiry(s, now)->Ok_0 is Some ==> expiry(s, now)->Ok_0->0 > now,
{
}

/// A share that may be downloaded so often is limited to just that; no limit but a
/// positive one is taken, and `unlimited` is none, as is nothing at all.
pub proof fn law_limit_is_a_number(n: nat)
    ensures
        download_limit(decimal(n)) == if n > i64::MAX {
            Err::<Option<i64>, ErrorView>(ErrorView::BadRequest("invalid max_downloads value"@))
        } else if n == 0 {
            Err(ErrorView::BadRequest("max_downloads must be positive"@))
        } else {
            Ok(Some(n as i64))
        },
        0 < n <= 0x8000_0000_0000_0000 ==> download_limit(seq!['-'] + decimal(n)) == Err::<
            Option<i64>,
            ErrorView,
        >(ErrorView::BadRequest("max_downloads must be positive"@)),
        download_limit(seq!['+'] + decimal(n)) == download_limit(decimal(n)),
        download_limit("unlimited"@) == Ok::<Option<i64>, ErrorView>(None),
        download_limit(""@) == Ok::<Option<i64>, ErrorView>(None),
{
    lemma_decimal_is_read(n);
    lemma_decimal_reads_back(n);
    law_signs_of_numbers(decimal(n), 0);
    lemma_signed_is_no_word(decimal(n));
    assert(is_digit(decimal(n)[0]));
}

/// Two texts that are no words for an expiry and are read as one number are the
/// same setting, whatever zeros and signs stand in them.
pub proof fn law_settings_go_by_the_number(a: Seq<char>, b: Seq<char>, now: i64)
    requires
        signed_value(a) is Some,
        signed_value(a) == signed_value(b),
    ensures
        expiry(a, now) == expiry(b, now),
        download_limit(a) == download_limit(b),
        signed_value(a)->0 > 0 ==> download_limit(a) == Ok::<Option<i64>, ErrorView>(
            Some(signed_value(a)->0 as i64),
        ),
        signed_value(a)->0 > 0 && now + signed_value(a)->0 <= i64::MAX ==> expiry(a, now) == Ok::<
            Option<i64>,
            ErrorView,
        >(Some((now + signed_value(a)->0) as i64)),
{
    lemma_words_are_no_numbers();
}

proof fn lemma_words_are_no_numbers()
    ensures
        signed_value("never"@) is None,
        signed_value(""@) is None,
        signed_value("1h"@) is None,
        signed_value("24h"@) is None,
        signed_value("7d"@) is None,
        signed_value("30d"@) is None,
        signed_value("unlimited"@) is None,
{
    reveal_strlit("never");
    reveal_strlit("");
    reveal_strlit("1h");
    reveal_strlit("24h");
    reveal_strlit("7d");
    reveal_strlit("30d");
    reveal_strlit("unlimited");
    assert(!is_digit("never"@[0]));
    assert(!is_digit("1h"@[1]));
    assert(!is_digit("24h"@[2]));
    assert(!is_digit("7d"@[1]));
    assert(!is_digit("30d"@[2]));
    assert(!is_digit("unlimited"@[0]));
}

// ---------------------------------------------------------------------------
// Forms

/// What the fields of a form are called. Any other is left alone.
pub proof fn law_fields_of_a_form(name: Seq<char>)
    ensures
        field_named(name) == Field::File <==> name == "file"@,
        field_named(name) == Field::FolderName <==> name == "folder_name"@,
        field_named(name) == Field::Expires <==> name == "expires"@,
        field_named(name) == Field::MaxDownloads <==> name == "max_downloads"@,
        field_named(name) == Field::Password <==> name == "password"@,
{
    reveal_strlit("file");
    reveal_strlit("folder_name");
    reveal_strlit("expires");
    reveal_strlit("max_downloads");
    reveal_strlit("password");
    assert("file"@.len() == 4 && "folder_name"@.len() == 11 && "expires"@.len() == 7);
    assert("max_downloads"@.len() == 13 && "password"@.len() == 8);
}

/// A form in which nothing was filled in asks for a share without an expiry, a limit
/// or a password. Filling a field in sets that field and no other; an empty password
/// sets none.
pub proof fn law_form_holds_what_was_filled_in(form: FormView, field: Field, text: Seq<char>, now: i64)
    ensures
        FormView::blank().settings(now) == Ok::<(Option<i64>, Option<i64>), ErrorView>((None, None)),
        FormView::blank().password is None,
        form.with(field, text).expires == if field == Field::Expires {
            text
        } else {
            form.expires
        },
        form.with(field, text).max_downloads == if field == Field::MaxDownloads {
            text
        } else {
            form.max_downloads
        },
        form.with(field, text).password == if field == Field::Password && text.len() > 0 {
            Some(text)
        } else {
            form.password
        },
{
    reveal_strlit("never");
    reveal_strlit("unlimited");
}

/// A form asks for the expiry and the limit that stand in it; where one of them is
/// refused, so is the form, for the expiry first.
pub proof fn law_form_asks_for_its_settings(form: FormView, now: i64)
    ensures
        form.settings(now) matches Ok(s) ==> expiry(form.expires, now) == Ok::<
            Option<i64>,
            ErrorView,
        >(s.0) && download_limit(form.max_downloads) == Ok::<Option<i64>, ErrorView>(s.1),
        form.settings(now) is Ok <==> expiry(form.expires, now) is Ok && download_limit(
            form.max_downloads,
        ) is Ok,
        expiry(form.expires, now) matches Err(e) ==> form.settings(now) == Err::<
            (Option<i64>, Option<i64>),
            ErrorView,
        >(e),
        expiry(form.expires, now) is Ok ==> (download_limit(form.max_downloads) matches Err(e)
            ==> form.settings(now) == Err::<(Option<i64>, Option<i64>), ErrorView>(e)),
{
}

/// What is kept of a password: an Argon2id text for which it is accepted. Of none,
/// nothing is kept. Only one of more bytes than Argon2 takes is too long.
pub proof fn law_what_is_kept_of_a_password(password: Option<Seq<char>>, hash: Option<Seq<char>>)
    requires
        hash_fits(password, hash),
    ensures
        password is None <==> hash is None,
        password is Some ==> argon2_accepts(password->0, hash->0) && accepts(password->0, hash->0)
            && has_prefix(hash->0, "$argon2id$v=19$m=19456,t=2,p=1$"@),
        password is Some ==> exists|salt: Seq<u8>|
            salt.len() == 16 && hash->0 == #[trigger] argon2_text(password->0, salt),
        too_long(password) <==> password is Some && encode_utf8(password->0).len() > 0xffff_ffff,
        forall|p: Seq<char>, h: Seq<char>|
            #[trigger] accepts(p, h) <==> argon2_accepts(p, h) && !too_many_lanes(h),
{
}

/// Which texts ask for too many lanes: those in which nine digits stand behind the
/// last `p=`. A text with fewer than nine characters behind each `p=`, or without
/// one, does not.
pub proof fn law_few_lanes_are_not_too_many(hash: Seq<char>, at: int)
    ensures
        stands_at(hash, "p="@, at) && (forall|later: int|
            at < later ==> !#[trigger] stands_at(hash, "p="@, later)) ==> (too_many_lanes(hash)
            <==> at + 11 <= hash.len() && forall|i: int|
            at + 2 <= i < at + 11 ==> '0' <= #[trigger] hash[i] <= '9'),
        (forall|later: int| !#[trigger] stands_at(hash, "p="@, later)) ==> !too_many_lanes(hash),
{
    if stands_at(hash, "p="@, at) && (forall|later: int|
        at < later ==> !#[trigger] stands_at(hash, "p="@, later)) {
        if at + 11 <= hash.len() {
            let digits = hash.subrange(at + 2, at + 11);
            if forall|i: int| at + 2 <= i < at + 11 ==> '0' <= #[trigger] hash[i] <= '9' {
                assert forall|i: int| 0 <= i < digits.len() implies is_digit(
                    #[trigger] digits[i],
                ) by {
                    assert(digits[i] == hash[at + 2 + i]);
                }
                assert(too_many_lanes(hash));
            }
            if all_digits(digits) {
                assert forall|i: int| at + 2 <= i < at + 11 implies '0' <= #[trigger] hash[i]
                    <= '9' by {
                    assert(is_digit(digits[i - at - 2]));
                }
            }
        }
        if too_many_lanes(hash) {
            let other = choose|o: int|
                #![trigger stands_at(hash, "p="@, o)]
                stands_at(hash, "p="@, o) && o + 11 <= hash.len() && all_digits(
                    hash.subrange(o + 2, o + 11),
                ) && forall|later: int| o < later ==> !#[trigger] stands_at(hash, "p="@, later);
            assert(other == at);
        }
    }
}

// ---------------------------------------------------------------------------
// Uploads

/// A chunk is taken where the size stays within the limit, and adds its length.
pub proof fn law_chunks_add_up(size: i64, more: usize, max: u64)
    requires
        size >= 0,
    ensures
        grown(size, more, max) is Some <==> size + more <= max && size + more
            <= 0x7fff_ffff_ffff_ffff,
        grown(size, more, max) is Some ==> grown(size, more, max)->0 == size + more,
{
}

/// A file is shown under its name, made safe, and has a name where the client gave
/// none. The archive of a folder has the folder's name, with `.zip` behind it where
/// it does not end so already, in letters of either size.
pub proof fn law_names_that_are_shown(name: Seq<char>)
    ensures
        shown_name(Some(name)) == safe_filename(name),
        shown_name(None) == "download.bin"@,
        entry_name(Some(name)) == safe_entry(name),
        entry_name(None) == "file.bin"@,
        archive_name(name) == if name.len() >= 4 && name[name.len() - 4] == '.' && (name[name.len()
            - 3] == 'z' || name[name.len() - 3] == 'Z') && (name[name.len() - 2] == 'i'
            || name[name.len() - 2] == 'I') && (name[name.len() - 1] == 'p' || name[name.len() - 1]
            == 'P') {
            name
        } else {
            name + ".zip"@
        },
{
    reveal_strlit(".zip");
    if name.len() >= 4 {
        let low = lowercase(name);
        let end = low.skip(low.len() - 4);
        assert(end.len() == 4);
        assert(forall|i: int| 0 <= i < 4 ==> #[trigger] end[i] == crate::text::lower(
            name[name.len() - 4 + i],
        ));
        let zip = ".zip"@;
        assert(zip[0] == '.' && zip[1] == 'z' && zip[2] == 'i' && zip[3] == 'p');
        if end == zip {
            assert(end[0] == '.' && end[1] == 'z' && end[2] == 'i' && end[3] == 'p');
        }
        if end[0] == '.' && end[1] == 'z' && end[2] == 'i' && end[3] == 'p' {
            assert(end =~= zip);
        }
        assert(end[0] == crate::text::lower(name[name.len() - 4]));
        assert(end[1] == crate::text::lower(name[name.len() - 3]));
        assert(end[2] == crate::text::lower(name[name.len() - 2]));
        assert(end[3] == crate::text::lower(name[name.len() - 1]));
    }
}

/// An upload begins with nothing received, nothing filled in and no size.
pub proof fn law_upload_begins_empty(id: Seq<char>)
    ensures
        UploadView::new(id) == (UploadView {
            share_id: id,
            original_name: None,
            size_bytes: 0,
            received: false,
            form: FormView { expires: "never"@, max_downloads: "unlimited"@, password: None },
        }),
        FolderView::new(id) == (FolderView {
            share_id: id,
            folder_name: "shared-folder"@,
            entries: Seq::empty(),
            total_size: 0,
            current: None,
            form: FormView { expires: "never"@, max_downloads: "unlimited"@, password: None },
        }),
        FolderView::new(id).sound(),
{
}

/// A file of a folder begins with no bytes, under the name that it is stored under
/// and with its own made safe. A field with another name begins nothing. Filling a
/// field in sets that field and no other.
pub proof fn law_folder_takes_its_fields(
    v: FolderView,
    name: Seq<char>,
    file_name: Option<Seq<char>>,
    stored_name: Seq<char>,
    field: Field,
    text: Seq<char>,
)
    ensures
        name == "file"@ ==> v.started(name, file_name, stored_name) == (FolderView {
            current: Some(
                EntryView {
                    stored_name: stored_name,
                    display_name: match file_name {
                        Some(n) => safe_entry(n),
                        None => "file.bin"@,
                    },
                    size_bytes: 0,
                },
            ),
            ..v
        }),
        name != "file"@ ==> v.started(name, file_name, stored_name) == v,
        v.with(field, text).folder_name == if field == Field::FolderName {
            safe_filename(text)
        } else {
            v.folder_name
        },
        v.with(field, text).form == if field == Field::FolderName {
            v.form
        } else {
            v.form.with(field, text)
        },
        v.with(field, text).entries == v.entries,
        v.with(field, text).current == v.current,
        v.with(field, text).total_size == v.total_size,
        v.with(field, text).share_id == v.share_id,
{
    law_fields_of_a_form(name);
}

/// An upload of one file takes one file, under its name made safe, and refuses a
/// second. The name of a folder is nothing to it; what any other field is for, its
/// name says. No field that begins changes anything else.
pub proof fn law_upload_takes_one_file(
    v: UploadView,
    name: Seq<char>,
    file_name: Option<Seq<char>>,
)
    ensures
        name == "file"@ && !v.received ==> v.started(name, file_name) == Ok::<
            (Field, UploadView),
            ErrorView,
        >(
            (
                Field::File,
                UploadView {
                    original_name: Some(
                        match file_name {
                            Some(n) => safe_filename(n),
                            None => "download.bin"@,
                        },
                    ),
                    ..v
                },
            ),
        ),
        name == "file"@ && v.received ==> v.started(name, file_name) == Err::<
            (Field, UploadView),
            ErrorView,
        >(ErrorView::BadRequest("only one file may be uploaded per share"@)),
        name != "file"@ && name != "folder_name"@ ==> v.started(name, file_name) == Ok::<
            (Field, UploadView),
            ErrorView,
        >((field_named(name), v)),
        name == "folder_name"@ ==> v.started(name, file_name) == Ok::<
            (Field, UploadView),
            ErrorView,
        >((Field::Unknown, v)),
{
    law_fields_of_a_form(name);
}

/// A chunk makes an upload larger by its length, where it stays within the limit, and
/// changes nothing else; of a folder, the file that is being received grows with it.
/// The end of a file makes it part of the upload.
pub proof fn law_chunks_make_uploads_larger(v: UploadView, w: FolderView, len: usize, max: u64)
    requires
        v.size_bytes >= 0,
        w.sound(),
        w.current is Some,
    ensures
        v.size_bytes + len <= max && v.size_bytes + len <= 0x7fff_ffff_ffff_ffff ==> v.with_chunk(
            len,
            max,
        ) == Some(UploadView { size_bytes: (v.size_bytes + len) as i64, ..v }),
        v.size_bytes + len > max || v.size_bytes + len > 0x7fff_ffff_ffff_ffff ==> v.with_chunk(
            len,
            max,
        ) is None,
        v.ended() == (UploadView { received: true, ..v }),
        w.total_size + len <= max && w.total_size + len <= 0x7fff_ffff_ffff_ffff ==> w.with_chunk(
            len,
            max,
        ) == Some(
            FolderView {
                total_size: (w.total_size + len) as i64,
                current: Some(
                    EntryView {
                        size_bytes: (w.current->0.size_bytes + len) as i64,
                        ..w.current->0
                    },
                ),
                ..w
            },
        ),
        w.total_size + len > max || w.total_size + len > 0x7fff_ffff_ffff_ffff ==> w.with_chunk(
            len,
            max,
        ) is None,
        w.ended() == (FolderView {
            entries: w.entries.push(w.current->0),
            current: None,
            ..w
        }),
        w.ended().sound(),
{
    law_sizes_add_up(w.entries, w.current->0);
}

/// What is asked of the upload of a folder at all times, and no more than that: its
/// size is the sizes of its files added up, the one that is being received with them,
/// and no size is negative.
pub proof fn law_what_a_sound_upload_is(v: FolderView)
    ensures
        v.sound() <==> {
            &&& forall|i: int| 0 <= i < v.entries.len() ==> (#[trigger] v.entries[i]).size_bytes >= 0
            &&& v.current is Some ==> v.current->0.size_bytes >= 0
            &&& sizes_sum(v.entries) >= 0
            &&& v.total_size == sizes_sum(v.entries) + if v.current is Some {
                v.current->0.size_bytes as int
            } else {
                0
            }
        },
{
}

/// The sizes of entries add up one by one.
pub proof fn law_sizes_add_up(entries: Seq<EntryView>, e: EntryView)
    ensures
        sizes_sum(Seq::empty()) == 0,
        sizes_sum(entries.push(e)) == sizes_sum(entries) + e.size_bytes,
{
    assert(entries.push(e).drop_last() =~= entries);
}

/// A file that was received, with settings that are taken, becomes a share: active,
/// with what was uploaded and asked for, and not downloaded yet. The dashboard is
/// told its links. Nothing else of the registry changes.
pub proof fn law_upload_becomes_a_share(
    before: RegistryView,
    after: RegistryView,
    upload: UploadView,
    file_path: Seq<char>,
    base_url: Seq<char>,
    hash: Option<Seq<char>>,
    now: i64,
    reply: Result<CreatedView, ErrorView>,
)
    requires
        creation(before, after, upload, file_path, base_url, hash, now, reply),
        upload.received,
        expiry(upload.form.expires, now) is Ok,
        download_limit(upload.form.max_downloads) is Ok,
        upload.form.password is Some ==> encode_utf8(upload.form.password->0).len() <= 0xffff_ffff,
        !before.shares.contains_key(upload.share_id),
    ensures
        reply == Ok::<CreatedView, ErrorView>(
            CreatedView {
                id: upload.share_id,
                download_url: "/download/"@ + upload.share_id,
                public_download_url: base_url + "/s/"@ + upload.share_id,
            },
        ),
        after.shares == before.shares.insert(
            upload.share_id,
            ShareView {
                id: upload.share_id,
                display_name: match upload.original_name {
                    Some(n) => n,
                    None => "download.bin"@,
                },
                file_path: file_path,
                size_bytes: upload.size_bytes,
                is_folder: false,
                created_at: now,
                expires_at: expiry(upload.form.expires, now)->Ok_0,
                max_downloads: download_limit(upload.form.max_downloads)->Ok_0,
                download_count: 0,
                password_hash: hash,
                status: "active"@,
            },
        ),
        hash_fits(upload.form.password, hash),
        after.entries == before.entries,
        after.events == before.events,
        after.failures == before.failures,
{
}

/// Any other upload becomes nothing: the registry is as it was, and the dashboard is
/// told the first thing that is wrong.
pub proof fn law_refused_upload_leaves_no_trace(
    before: RegistryView,
    after: RegistryView,
    upload: UploadView,
    file_path: Seq<char>,
    base_url: Seq<char>,
    hash: Option<Seq<char>>,
    now: i64,
    reply: Result<CreatedView, ErrorView>,
)
    requires
        creation(before, after, upload, file_path, base_url, hash, now, reply),
        !upload.received || expiry(upload.form.expires, now) is Err || download_limit(
            upload.form.max_downloads,
        ) is Err || (upload.form.password is Some && encode_utf8(upload.form.password->0).len()
            > 0xffff_ffff) || before.shares.contains_key(upload.share_id),
    ensures
        after == before,
        reply == Err::<CreatedView, ErrorView>(
            if !upload.received {
                ErrorView::BadRequest("no file provided"@)
            } else if expiry(upload.form.expires, now) is Err {
                expiry(upload.form.expires, now)->Err_0
            } else if download_limit(upload.form.max_downloads) is Err {
                download_limit(upload.form.max_downloads)->Err_0
            } else if upload.form.password is Some && encode_utf8(upload.form.password->0).len()
                > 0xffff_ffff {
                ErrorView::Internal("password hashing failed"@)
            } else {
                ErrorView::Internal("share id is taken"@)
            },
        ),
{
}

/// A folder with at least one file, with settings that are taken, becomes a share
/// with these files, in their order, and their size. Nothing else of the registry
/// changes.
pub proof fn law_folder_becomes_a_share(
    before: RegistryView,
    after: RegistryView,
    upload: FolderView,
    folder_path: Seq<char>,
    base_url: Seq<char>,
    hash: Option<Seq<char>>,
    now: i64,
    reply: Result<CreatedView, ErrorView>,
)
    requires
        folder_creation(before, after, upload, folder_path, base_url, hash, now, reply),
        upload.entries.len() > 0,
        expiry(upload.form.expires, now) is Ok,
        download_limit(upload.form.max_downloads) is Ok,
        upload.form.password is Some ==> encode_utf8(upload.form.password->0).len() <= 0xffff_ffff,
        !before.shares.contains_key(upload.share_id),
        forall|i: int, j: int|
            0 <= i < j < upload.entries.len() ==> (#[trigger] upload.entries[i]).stored_name != (
            #[trigger] upload.entries[j]).stored_name,
    ensures
        reply == Ok::<CreatedView, ErrorView>(
            CreatedView {
                id: upload.share_id,
                download_url: "/download/"@ + upload.share_id,
                public_download_url: base_url + "/s/"@ + upload.share_id,
            },
        ),
        after.shares == before.shares.insert(
            upload.share_id,
            ShareView {
                id: upload.share_id,
                display_name: archive_name(upload.folder_name),
                file_path: folder_path,
                size_bytes: upload.total_size,
                is_folder: true,
                created_at: now,
                expires_at: expiry(upload.form.expires, now)->Ok_0,
                max_downloads: download_limit(upload.form.max_downloads)->Ok_0,
                download_count: 0,
                password_hash: hash,
                status: "active"@,
            },
        ),
        hash_fits(upload.form.password, hash),
        after.entries.len() == before.entries.len() + upload.entries.len(),
        forall|i: int|
            0 <= i < before.entries.len() ==> #[trigger] after.entries[i] == before.entries[i],
        forall|i: int|
            before.entries.len() <= i < after.entries.len() ==> #[trigger] after.entries[i] == (
            EntryRowView {
                share_id: upload.share_id,
                entry: upload.entries[i - before.entries.len()],
            }),
        after.events == before.events,
        after.failures == before.failures,
{
}

/// Any other upload of a folder becomes nothing: the registry is as it was, and the
/// dashboard is told the first thing that is wrong.
pub proof fn law_refused_folder_leaves_no_trace(
    before: RegistryView,
    after: RegistryView,
    upload: FolderView,
    folder_path: Seq<char>,
    base_url: Seq<char>,
    hash: Option<Seq<char>>,
    now: i64,
    reply: Result<CreatedView, ErrorView>,
    i: int,
    j: int,
)
    requires
        folder_creation(before, after, upload, folder_path, base_url, hash, now, reply),
        upload.entries.len() == 0 || expiry(upload.form.expires, now) is Err || download_limit(
            upload.form.max_downloads,
        ) is Err || (upload.form.password is Some && encode_utf8(upload.form.password->0).len()
            > 0xffff_ffff) || before.shares.contains_key(upload.share_id) || (0 <= i < j
            < upload.entries.len() && upload.entries[i].stored_name
            == upload.entries[j].stored_name),
    ensures
        after == before,
        reply == Err::<CreatedView, ErrorView>(
            if upload.entries.len() == 0 {
                ErrorView::BadRequest("no files provided"@)
            } else if expiry(upload.form.expires, now) is Err {
                expiry(upload.form.expires, now)->Err_0
            } else if download_limit(upload.form.max_downloads) is Err {
                download_limit(upload.form.max_downloads)->Err_0
            } else if upload.form.password is Some && encode_utf8(upload.form.password->0).len()
                > 0xffff_ffff {
                ErrorView::Internal("password hashing failed"@)
            } else if before.shares.contains_key(upload.share_id) {
                ErrorView::Internal("share id is taken"@)
            } else {
                ErrorView::Internal("stored name is taken"@)
            },
        ),
{
}

// ---------------------------------------------------------------------------
// Changes

/// Settings that are taken are changed, those that are given and no others; a share
/// that is not there is not found, and what is refused changes nothing.
pub proof fn law_change_does_what_was_asked(
    before: RegistryView,
    after: RegistryView,
    id: Seq<char>,
    body: UpdateShareRequest,
    change: Option<Option<Seq<char>>>,
    now: i64,
    reply: Result<(), ErrorView>,
)
    requires
        update(before, after, id, body, change, now, reply),
        forall|k: Seq<char>| #[trigger]
            before.shares.contains_key(k) ==> before.shares[k].id == k,
    ensures
        ({
            let expires = opt_view(body.expires);
            let limit = opt_view(body.max_downloads);
            let password = opt_view(body.password);
            let bad_expiry = expires is Some && expiry(expires->0, now) is Err;
            let bad_limit = limit is Some && download_limit(limit->0) is Err;
            let bad_password = password is Some && encode_utf8(password->0).len() > 0xffff_ffff;
            let s = before.shares[id];
            if !before.shares.contains_key(id) {
                reply == Err::<(), ErrorView>(ErrorView::NotFound) && after == before
            } else if bad_expiry {
                reply == Err::<(), ErrorView>(expiry(expires->0, now)->Err_0) && after == before
            } else if bad_limit {
                reply == Err::<(), ErrorView>(download_limit(limit->0)->Err_0) && after == before
            } else if bad_password {
                reply == Err::<(), ErrorView>(ErrorView::Internal("password hashing failed"@))
                    && after == before
            } else {
                &&& reply is Ok
                &&& after.shares == before.shares.insert(
                    id,
                    ShareView {
                        expires_at: if expires is Some {
                            expiry(expires->0, now)->Ok_0
                        } else {
                            s.expires_at
                        },
                        max_downloads: if limit is Some {
                            download_limit(limit->0)->Ok_0
                        } else {
                            s.max_downloads
                        },
                        password_hash: after.shares[id].password_hash,
                        ..s
                    },
                )
                &&& password is None ==> after.shares[id].password_hash == s.password_hash
                &&& password is Some && password->0.len() == 0
                    ==> after.shares[id].password_hash is None
                &&& password is Some && password->0.len() > 0 ==> hash_fits(
                    password,
                    after.shares[id].password_hash,
                )
                &&& after.entries == before.entries && after.events == before.events
                    && after.failures == before.failures
            }
        }),
{
}

/// Without being asked, nothing is removed from the disk along with a share, a file
/// as little as a folder. When asked, what the share was made of is removed and
/// nothing else: its own path, as a folder exactly where it is one.
pub proof fn law_nothing_is_removed_unasked(s: ShareView)
    ensures
        removal(s, false) == RemovalView::Nothing,
        removal(s, true) == RemovalView::Folder(s.file_path) <==> s.is_folder,
        removal(s, true) == RemovalView::File(s.file_path) <==> !s.is_folder,
{
}

} // verus!
