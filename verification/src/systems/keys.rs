//! Where the store keeps what, and the ids of tracks.

use vstd::prelude::*;

use crate::text;
use vstd::string::StringExecFns;

verus! {

/// The settings.
pub const SETTINGS_KEY: &'static str = "systems:settings";

/// The hash that holds every track under its id.
pub const TRACKS_KEY: &'static str = "systems:tracks";

/// The list of a track's sessions, the latest first.
pub open spec fn sessions_at(id: Seq<char>) -> Seq<char> {
    "systems:sessions:"@ + id
}

/// The list of a track's skips, the latest first.
pub open spec fn skips_at(id: Seq<char>) -> Seq<char> {
    "systems:skips:"@ + id
}

/// The hash that holds a track's occurrences that came due, under their days.
pub open spec fn scheduled_at(id: Seq<char>) -> Seq<char> {
    "systems:scheduled:"@ + id
}

/// The day of a track's last page.
pub open spec fn last_alert_at(id: Seq<char>) -> Seq<char> {
    "systems:last_alert:"@ + id
}

/// Everything that is kept of one track, but the track itself.
pub open spec fn track_keys(id: Seq<char>) -> Seq<Seq<char>> {
    seq![sessions_at(id), skips_at(id), scheduled_at(id), last_alert_at(id)]
}

fn joined_text(prefix: &str, id: &str) -> (r: String)
    ensures
        r@ == prefix@ + id@,
{
    let mut r = prefix.to_owned();
    r.append(id);
    r
}

pub fn sessions_key(id: &str) -> (r: String)
    ensures
        r@ == sessions_at(id@),
{
    joined_text("systems:sessions:", id)
}

pub fn skips_key(id: &str) -> (r: String)
    ensures
        r@ == skips_at(id@),
{
    joined_text("systems:skips:", id)
}

pub fn scheduled_key(id: &str) -> (r: String)
    ensures
        r@ == scheduled_at(id@),
{
    joined_text("systems:scheduled:", id)
}

pub fn last_alert_key(id: &str) -> (r: String)
    ensures
        r@ == last_alert_at(id@),
{
    joined_text("systems:last_alert:", id)
}

/// The words of a text: its runs of ASCII letters and digits, in lower case.
pub open spec fn words(s: Seq<char>) -> Seq<Seq<char>>
    decreases s.len(),
{
    if s.len() == 0 {
        Seq::empty()
    } else {
        let before = words(s.drop_last());
        if !text::is_alphanumeric(s.last()) {
            before
        } else if s.len() > 1 && text::is_alphanumeric(s[s.len() - 2]) {
            before.drop_last().push(before.last().push(text::lower(s.last())))
        } else {
            before.push(seq![text::lower(s.last())])
        }
    }
}

/// The words with a hyphen between each and the next.
pub open spec fn hyphenated(words: Seq<Seq<char>>) -> Seq<char>
    decreases words.len(),
{
    if words.len() == 0 {
        Seq::empty()
    } else if words.len() == 1 {
        words[0]
    } else {
        hyphenated(words.drop_last()).push('-') + words.last()
    }
}

/// The id of a track that is created under a name.
pub open spec fn slug(name: Seq<char>) -> Seq<char> {
    hyphenated(words(name))
}

/// A character of a slug's words: an ASCII digit or lower-case letter.
pub open spec fn is_word_char(c: char) -> bool {
    text::is_alphanumeric(c) && text::lower(c) == c
}

pub open spec fn is_word(w: Seq<char>) -> bool {
    w.len() > 0 && forall|i: int| 0 <= i < w.len() ==> is_word_char(#[trigger] w[i])
}

proof fn lemma_words(s: Seq<char>)
    ensures
        s.len() > 0 && text::is_alphanumeric(s.last()) ==> words(s).len() > 0,
        forall|i: int| 0 <= i < words(s).len() ==> is_word(#[trigger] words(s)[i]),
    decreases s.len(),
{
    if s.len() > 0 {
        let before = words(s.drop_last());
        lemma_words(s.drop_last());
        assert forall|i: int| 0 <= i < words(s).len() implies is_word(#[trigger] words(s)[i]) by {
            if i < before.len() {
                assert(is_word(before[i]));
            }
        }
    }
}

/// A stable id that is safe in a URL: the name's words in lower case, joined by
/// hyphens. Empty if the name has no ASCII letter or digit.
pub fn slugify(name: &str) -> (r: String)
    ensures
        r@ == slug(name@),
{
    let mut out = String::new();
    let mut started = false;
    let mut gap = false;
    let cs = text::chars_of(name);
    let mut i: usize = 0;
    while i < cs.len()
        invariant
            cs@ == name@,
            i <= cs@.len(),
            out@ == slug(cs@.take(i as int)),
            started == (words(cs@.take(i as int)).len() > 0),
            gap == (started && !text::is_alphanumeric(cs@[i - 1])),
        decreases cs@.len() - i,
    {
        let c = cs[i];
        let ghost before = words(cs@.take(i as int));
        let ghost after = words(cs@.take(i + 1));
        proof {
            assert(cs@.take(i + 1).drop_last() =~= cs@.take(i as int));
            assert(cs@.take(i + 1).last() == c);
            lemma_words(cs@.take(i as int));
            lemma_words(cs@.take(i + 1));
            if text::is_alphanumeric(c) {
                if i > 0 && text::is_alphanumeric(cs@[i - 1]) {
                    assert(cs@.take(i as int).last() == cs@[i - 1]);
                    assert(before =~= before.drop_last().push(before.last()));
                    assert(after.drop_last() =~= before.drop_last());
                    assert(hyphenated(after) =~= hyphenated(before).push(text::lower(c)));
                } else {
                    assert(after.drop_last() =~= before);
                    if started {
                        assert(hyphenated(after) =~= hyphenated(before).push('-').push(
                            text::lower(c),
                        ));
                    } else {
                        assert(hyphenated(after) =~= hyphenated(before).push(text::lower(c)));
                    }
                }
            }
        }
        if text::alphanumeric_char(c) {
            if gap {
                out.push('-');
                gap = false;
            }
            out.push(text::lower_char(c));
            started = true;
        } else if started {
            gap = true;
        }
        i = i + 1;
    }
    assert(cs@.take(cs@.len() as int) =~= cs@);
    out
}

// --- Laws ---

/// The keys of tracks tell the tracks apart and what is kept of them, and none is the
/// key of the settings or of the tracks themselves.
pub proof fn lemma_keys_differ(a: Seq<char>, b: Seq<char>, i: int, j: int)
    requires
        0 <= i < 4,
        0 <= j < 4,
    ensures
        track_keys(a)[i] == track_keys(b)[j] ==> i == j && a == b,
        track_keys(a)[i] != SETTINGS_KEY@,
        track_keys(a)[i] != TRACKS_KEY@,
        SETTINGS_KEY@ != TRACKS_KEY@,
{
    reveal_strlit("systems:sessions:");
    reveal_strlit("systems:skips:");
    reveal_strlit("systems:scheduled:");
    reveal_strlit("systems:last_alert:");
    reveal_strlit("systems:settings");
    reveal_strlit("systems:tracks");
    let x = track_keys(a)[i];
    let y = track_keys(b)[j];
    assert(SETTINGS_KEY@[8] == 's' && SETTINGS_KEY@[9] == 'e' && SETTINGS_KEY@[10] == 't');
    assert(TRACKS_KEY@[8] == 't');
    assert(x[8] == if i == 3 {
        'l'
    } else {
        's'
    });
    assert(y[8] == if j == 3 {
        'l'
    } else {
        's'
    });
    assert(i < 3 ==> x[9] == if i == 0 {
        'e'
    } else if i == 1 {
        'k'
    } else {
        'c'
    });
    assert(j < 3 ==> y[9] == if j == 0 {
        'e'
    } else if j == 1 {
        'k'
    } else {
        'c'
    });
    assert(i == 0 ==> x[10] == 's');
    if x == y {
        let prefix = x.len() - a.len();
        assert(a =~= x.skip(prefix));
        assert(b =~= y.skip(prefix));
    }
}

proof fn lemma_hyphenated(ws: Seq<Seq<char>>)
    requires
        forall|i: int| 0 <= i < ws.len() ==> is_word(#[trigger] ws[i]),
    ensures
        is_slug(hyphenated(ws)),
        hyphenated(ws).len() == 0 <==> ws.len() == 0,
    decreases ws.len(),
{
    if ws.len() == 1 {
        assert(is_word(ws[0]));
    } else if ws.len() > 1 {
        let front = hyphenated(ws.drop_last());
        assert forall|i: int| 0 <= i < ws.len() - 1 implies is_word(
            #[trigger] ws.drop_last()[i],
        ) by {
            assert(ws.drop_last()[i] == ws[i]);
        }
        lemma_hyphenated(ws.drop_last());
        assert(is_word(ws[ws.len() - 1]));
        let all = hyphenated(ws);
        assert forall|i: int| 0 <= i < all.len() implies is_word_char(#[trigger] all[i]) || (all[i]
            == '-' && 0 < i < all.len() - 1 && is_word_char(all[i - 1]) && is_word_char(
            all[i + 1],
        )) by {
            if i < front.len() {
                assert(all[i] == front[i]);
                if i + 1 < front.len() {
                    assert(all[i + 1] == front[i + 1]);
                }
            } else if i == front.len() {
                assert(all[i - 1] == front[i - 1]);
                assert(all[i + 1] == ws.last()[0]);
            } else {
                assert(all[i] == ws.last()[i - front.len() - 1]);
            }
        }
    }
}

/// What is safe in a URL: digits, lower-case letters, and single hyphens between them.
pub open spec fn is_slug(s: Seq<char>) -> bool {
    forall|i: int|
        0 <= i < s.len() ==> is_word_char(#[trigger] s[i]) || (s[i] == '-' && 0 < i < s.len() - 1
            && is_word_char(s[i - 1]) && is_word_char(s[i + 1]))
}

/// A slug is safe in a URL, and it is empty only if the name has no ASCII letter or
/// digit.
pub proof fn lemma_slug_is_safe(name: Seq<char>)
    ensures
        is_slug(slug(name)),
        slug(name).len() == 0 <==> forall|i: int|
            0 <= i < name.len() ==> !text::is_alphanumeric(#[trigger] name[i]),
{
    lemma_words(name);
    lemma_hyphenated(words(name));
    lemma_no_words(name);
}

proof fn lemma_no_words(s: Seq<char>)
    ensures
        words(s).len() == 0 <==> forall|i: int|
            0 <= i < s.len() ==> !text::is_alphanumeric(#[trigger] s[i]),
    decreases s.len(),
{
    if s.len() > 0 {
        let front = s.drop_last();
        lemma_no_words(front);
        lemma_words(s);
        if words(s).len() == 0 {
            assert forall|i: int| 0 <= i < s.len() implies !text::is_alphanumeric(
                #[trigger] s[i],
            ) by {
                if i < front.len() {
                    assert(s[i] == front[i]);
                }
            }
        } else if !text::is_alphanumeric(s.last()) {
            let i = choose|i: int| 0 <= i < front.len() && text::is_alphanumeric(front[i]);
            assert(s[i] == front[i]);
        } else {
            assert(text::is_alphanumeric(s[s.len() - 1]));
        }
    }
}

/// The words of a text that ends in a hyphen and a word.
proof fn lemma_words_then_word(s: Seq<char>, w: Seq<char>)
    requires
        is_word(w),
        s.len() == 0 || s.last() == '-',
    ensures
        words(s + w) == words(s).push(w),
    decreases w.len(),
{
    let all = s + w;
    assert(is_word_char(w[w.len() - 1]));
    assert(all.last() == w.last());
    assert(all.drop_last() =~= s + w.drop_last());
    if w.len() == 1 {
        assert(all.drop_last() =~= s);
        assert(s.len() > 0 ==> all[all.len() - 2] == s.last());
        assert(seq![w.last()] =~= w);
    } else {
        let front = w.drop_last();
        assert forall|i: int| 0 <= i < front.len() implies is_word_char(#[trigger] front[i]) by {
            assert(front[i] == w[i]);
        }
        lemma_words_then_word(s, front);
        assert(all[all.len() - 2] == w[w.len() - 2]);
        assert(is_word_char(w[w.len() - 2]));
        assert(words(s).push(front).drop_last() =~= words(s));
        assert(front.push(w.last()) =~= w);
    }
}

proof fn lemma_words_of_hyphenated(ws: Seq<Seq<char>>)
    requires
        forall|i: int| 0 <= i < ws.len() ==> is_word(#[trigger] ws[i]),
    ensures
        words(hyphenated(ws)) == ws,
    decreases ws.len(),
{
    if ws.len() == 1 {
        assert(is_word(ws[0]));
        lemma_words_then_word(Seq::empty(), ws[0]);
        assert(Seq::<char>::empty() + ws[0] =~= ws[0]);
        assert(words(ws[0]) =~= ws);
    } else if ws.len() > 1 {
        let front = ws.drop_last();
        assert forall|i: int| 0 <= i < front.len() implies is_word(#[trigger] front[i]) by {
            assert(front[i] == ws[i]);
        }
        lemma_words_of_hyphenated(front);
        let s = hyphenated(front).push('-');
        assert(s.drop_last() =~= hyphenated(front));
        assert(is_word(ws[ws.len() - 1]));
        lemma_words_then_word(s, ws.last());
        assert(front.push(ws.last()) =~= ws);
    }
}

/// A slug is its own slug.
pub proof fn lemma_slug_twice(name: Seq<char>)
    ensures
        slug(slug(name)) == slug(name),
{
    lemma_words(name);
    lemma_words_of_hyphenated(words(name));
}

/// What a further character of a name does to the slug.
pub proof fn lemma_slug_grows(name: Seq<char>, c: char)
    ensures
        name.len() == 0 ==> slug(name).len() == 0,
        !text::is_alphanumeric(c) ==> slug(name.push(c)) == slug(name),
        text::is_alphanumeric(c) ==> slug(name.push(c)) == if slug(name).len() == 0 {
            seq![text::lower(c)]
        } else if text::is_alphanumeric(name.last()) {
            slug(name).push(text::lower(c))
        } else {
            slug(name).push('-').push(text::lower(c))
        },
{
    let longer = name.push(c);
    let before = words(name);
    let after = words(longer);
    assert(longer.drop_last() =~= name);
    lemma_words(name);
    lemma_words(longer);
    lemma_hyphenated(before);
    if text::is_alphanumeric(c) {
        if name.len() > 0 && text::is_alphanumeric(name.last()) {
            assert(longer[longer.len() - 2] == name.last());
            assert(before =~= before.drop_last().push(before.last()));
            assert(after.drop_last() =~= before.drop_last());
            assert(hyphenated(after) =~= hyphenated(before).push(text::lower(c)));
        } else {
            assert(name.len() > 0 ==> longer[longer.len() - 2] == name.last());
            assert(after.drop_last() =~= before);
            if before.len() > 0 {
                assert(hyphenated(after) =~= hyphenated(before).push('-').push(text::lower(c)));
            } else {
                assert(hyphenated(after) =~= seq![text::lower(c)]);
            }
        }
    }
}

/// The keys of a track.
pub proof fn lemma_keys(
    id: &str,
    logged: String,
    skipped: String,
    scheduled: String,
    last_alert: String,
)
    requires
        call_ensures(sessions_key, (id,), logged),
        call_ensures(skips_key, (id,), skipped),
        call_ensures(scheduled_key, (id,), scheduled),
        call_ensures(last_alert_key, (id,), last_alert),
    ensures
        logged@ == "systems:sessions:"@ + id@,
        skipped@ == "systems:skips:"@ + id@,
        scheduled@ == "systems:scheduled:"@ + id@,
        last_alert@ == "systems:last_alert:"@ + id@,
{
}

}
