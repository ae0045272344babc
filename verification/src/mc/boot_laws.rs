//! Laws of the boots of a server.

use vstd::prelude::*;

use crate::http::Response;
use crate::mc::boots;
use crate::mc::boots::{Boot, EntryView, LokiStream, LokiStreamView};
use crate::mc::history;
use crate::mc::history::{HistoryParams, LokiAnswer};
use crate::order;
use crate::text;

verus! {

/// A request for the history is answered with these boots where the log store has
/// answered with these streams.
pub open spec fn answers_with(
    streams: Vec<LokiStream>,
    status: u16,
    params: HistoryParams,
    boots: Vec<Boot>,
) -> bool {
    call_ensures(
        history::history_response,
        (LokiAnswer::Answered { status, streams: Some(streams) }, &params),
        Response::Json(boots),
    )
}

// --- What a boot is, in terms of the streams ---

/// The parts of the value at a place: the stream, and the value in it.
pub open spec fn parts(streams: Seq<LokiStream>, at: (int, int)) -> Seq<Option<String>> {
    streams[at.0].values@[at.1]@
}

/// The value at a place is a line of the log file `file`: its first part is a text that
/// writes a timestamp and its second part is a text.
pub open spec fn is_line(streams: Seq<LokiStream>, file: Seq<char>, at: (int, int)) -> bool {
    &&& 0 <= at.0 < streams.len()
    &&& streams[at.0].filename@ == file
    &&& 0 <= at.1 < streams[at.0].values@.len()
    &&& parts(streams, at).len() >= 2
    &&& parts(streams, at)[0] matches Some(ts)
    &&& text::parsed_u64(ts@) is Some
    &&& parts(streams, at)[1] is Some
}

/// A log file has a line.
pub open spec fn has_line(streams: Seq<LokiStream>, file: Seq<char>) -> bool {
    exists|at: (int, int)| #[trigger] is_line(streams, file, at)
}

/// The timestamp of the line at a place.
pub open spec fn ts_at(streams: Seq<LokiStream>, at: (int, int)) -> u64 {
    text::parsed_u64(parts(streams, at)[0]->0@)->0
}

/// The text of the line at a place.
pub open spec fn line_at(streams: Seq<LokiStream>, at: (int, int)) -> Seq<char> {
    parts(streams, at)[1]->0@
}

/// One place comes before another: its stream does, or its value in the same stream.
pub open spec fn is_before(a: (int, int), b: (int, int)) -> bool {
    a.0 < b.0 || (a.0 == b.0 && a.1 < b.1)
}

/// `all` are the places of all lines of a log file, by time, and lines of one time by
/// place.
pub open spec fn are_lines(
    streams: Seq<LokiStream>,
    file: Seq<char>,
    all: Seq<(int, int)>,
) -> bool {
    &&& forall|k: int| 0 <= k < all.len() ==> is_line(streams, file, #[trigger] all[k])
    &&& forall|at: (int, int)| #[trigger] is_line(streams, file, at) ==> all.contains(at)
    &&& forall|a: int, b: int|
        0 <= a < b < all.len() ==> {
            ||| ts_at(streams, #[trigger] all[a]) < ts_at(streams, #[trigger] all[b])
            ||| ts_at(streams, all[a]) == ts_at(streams, all[b]) && is_before(all[a], all[b])
        }
}

/// `pod` is the first pod that a stream of the log file names, empty where none does.
pub open spec fn is_pod(streams: Seq<LokiStream>, file: Seq<char>, pod: Seq<char>) -> bool {
    ||| exists|i: int|
        #![trigger streams[i]]
        {
            &&& 0 <= i < streams.len()
            &&& streams[i].filename@ == file
            &&& streams[i].pod@ == pod
            &&& pod.len() > 0
            &&& forall|j: int|
                0 <= j < i && (#[trigger] streams[j]).filename@ == file ==> streams[j].pod@.len()
                    == 0
        }
    ||| {
        &&& pod.len() == 0
        &&& forall|j: int|
            0 <= j < streams.len() && (#[trigger] streams[j]).filename@ == file
                ==> streams[j].pod@.len() == 0
    }
}

/// `boot` shows the last of the lines `all`: as many as may be kept, or all of them
/// where there are no more.
pub open spec fn shows_last(
    streams: Seq<LokiStream>,
    all: Seq<(int, int)>,
    max_lines: nat,
    boot: Boot,
) -> bool {
    let shown = if all.len() <= max_lines {
        all.len()
    } else {
        max_lines
    };
    let from = all.len() - shown;
    &&& boot.lines@.len() == shown
    &&& forall|k: int|
        0 <= k < shown ==> (#[trigger] boot.lines@[k])@ == line_at(streams, all[from + k])
    &&& boot.start_ms == ts_at(streams, all[from]) / 1_000_000
    &&& boot.end_ms == ts_at(streams, all[all.len() - 1]) / 1_000_000
}

/// `boot` is that of a log file.
pub open spec fn is_boot(
    streams: Seq<LokiStream>,
    file: Seq<char>,
    max_lines: nat,
    boot: Boot,
) -> bool {
    &&& is_pod(streams, file, boot.pod@)
    &&& boot.id@ == boots::boot_id_text(boot.pod@, file)
    &&& exists|all: Seq<(int, int)>| #[trigger]
        are_lines(streams, file, all) && all.len() > 0 && shows_last(streams, all, max_lines, boot)
}

// --- Lines of the streams ---

proof fn lemma_entries_of_lists(values: Seq<Seq<Option<Seq<char>>>>) -> (at: Seq<int>)
    ensures
        boots::entries_of(values).len() == at.len(),
        forall|k: int|
            0 <= k < at.len() ==> 0 <= #[trigger] at[k] < values.len() && boots::entry_of(
                values[at[k]],
            ) == Some(boots::entries_of(values)[k]),
        forall|a: int, b: int| 0 <= a < b < at.len() ==> #[trigger] at[a] < #[trigger] at[b],
        forall|j: int|
            0 <= j < values.len() && boots::entry_of(values[j]) is Some ==> #[trigger] at.contains(
                j,
            ),
    decreases values.len(),
{
    if values.len() == 0 {
        Seq::empty()
    } else {
        let front = values.drop_last();
        let last = values.len() - 1;
        let before = lemma_entries_of_lists(front);
        let at = match boots::entry_of(values.last()) {
            Some(_) => before.push(last),
            None => before,
        };
        assert forall|k: int| 0 <= k < at.len() implies 0 <= #[trigger] at[k] < values.len()
            && boots::entry_of(values[at[k]]) == Some(boots::entries_of(values)[k]) by {
            if k < before.len() {
                assert(at[k] == before[k]);
                assert(front[before[k]] == values[before[k]]);
            }
        }
        assert forall|j: int|
            0 <= j < values.len() && boots::entry_of(values[j]) is Some implies #[trigger] at.contains(
        j) by {
            if j < last {
                assert(front[j] == values[j]);
                assert(before.contains(j));
                let k = choose|k: int| 0 <= k < before.len() && before[k] == j;
                assert(at[k] == j);
            } else {
                assert(at[at.len() - 1] == j);
            }
        }
        at
    }
}

/// The entry at a place of the streams' views.
spec fn entry_at(streams: Seq<LokiStreamView>, at: (int, int)) -> Option<EntryView> {
    boots::entry_of(streams[at.0].values[at.1])
}

spec fn in_file(streams: Seq<LokiStreamView>, file: Seq<char>, at: (int, int)) -> bool {
    &&& 0 <= at.0 < streams.len()
    &&& streams[at.0].filename == file
    &&& 0 <= at.1 < streams[at.0].values.len()
    &&& entry_at(streams, at) is Some
}

proof fn lemma_file_entries_lists(streams: Seq<LokiStreamView>, file: Seq<char>) -> (at: Seq<
    (int, int),
>)
    ensures
        boots::file_entries(streams, file).len() == at.len(),
        forall|k: int|
            0 <= k < at.len() ==> in_file(streams, file, #[trigger] at[k]) && entry_at(
                streams,
                at[k],
            ) == Some(boots::file_entries(streams, file)[k]),
        forall|a: int, b: int|
            0 <= a < b < at.len() ==> is_before(#[trigger] at[a], #[trigger] at[b]),
        forall|p: (int, int)| #[trigger] in_file(streams, file, p) ==> at.contains(p),
    decreases streams.len(),
{
    if streams.len() == 0 {
        Seq::empty()
    } else {
        let front = streams.drop_last();
        let last = streams.len() - 1;
        let before = lemma_file_entries_lists(front, file);
        assert forall|p: (int, int)| p.0 < last implies #[trigger] in_file(streams, file, p)
            == in_file(front, file, p) && (in_file(front, file, p) ==> entry_at(streams, p)
            == entry_at(front, p)) by {
            if 0 <= p.0 {
                assert(front[p.0] == streams[p.0]);
            }
        }
        if streams.last().filename == file {
            let inner = lemma_entries_of_lists(streams.last().values);
            let more = Seq::new(inner.len(), |k: int| (last, inner[k]));
            let at = before + more;
            let n = before.len();
            assert forall|k: int| 0 <= k < at.len() implies in_file(streams, file, #[trigger] at[k])
                && entry_at(streams, at[k]) == Some(
                boots::file_entries(streams, file)[k],
            ) by {
                if k < n {
                    assert(at[k] == before[k]);
                    assert(in_file(front, file, before[k]));
                    assert(in_file(streams, file, before[k]));
                } else {
                    assert(at[k] == (last, inner[k - n]));
                    assert(0 <= inner[k - n] < streams.last().values.len());
                }
            }
            assert forall|a: int, b: int| 0 <= a < b < at.len() implies is_before(
                #[trigger] at[a],
                #[trigger] at[b],
            ) by {
                if b < n {
                    assert(at[a] == before[a] && at[b] == before[b]);
                } else if a < n {
                    assert(at[a] == before[a]);
                    assert(in_file(front, file, before[a]));
                } else {
                    assert(inner[a - n] < inner[b - n]);
                }
            }
            assert forall|p: (int, int)| #[trigger] in_file(
                streams,
                file,
                p,
            ) implies at.contains(p) by {
                if p.0 < last {
                    assert(in_file(front, file, p));
                    let k = choose|k: int| 0 <= k < n && before[k] == p;
                    assert(at[k] == p);
                } else {
                    assert(inner.contains(p.1));
                    let k = choose|k: int| 0 <= k < inner.len() && inner[k] == p.1;
                    assert(at[n + k] == p);
                }
            }
            at
        } else {
            assert forall|k: int| 0 <= k < before.len() implies in_file(
                streams,
                file,
                #[trigger] before[k],
            ) && entry_at(streams, before[k]) == Some(
                boots::file_entries(streams, file)[k],
            ) by {
                assert(in_file(front, file, before[k]));
            }
            assert forall|p: (int, int)| #[trigger] in_file(
                streams,
                file,
                p,
            ) implies before.contains(p) by {
                if p.0 < last {
                    assert(in_file(front, file, p));
                }
            }
            before
        }
    }
}

proof fn lemma_is_line(streams: Vec<LokiStream>, file: Seq<char>, at: (int, int))
    ensures
        is_line(streams@, file, at) == in_file(streams.deep_view(), file, at),
        is_line(streams@, file, at) ==> entry_at(streams.deep_view(), at) == Some(
            EntryView { ts_ns: ts_at(streams@, at), line: line_at(streams@, at) },
        ),
{
    let views = streams.deep_view();
    if 0 <= at.0 < streams@.len() {
        let stream = streams@[at.0];
        assert(views[at.0] == stream.deep_view());
        assert(views[at.0].values == stream.values.deep_view());
        if 0 <= at.1 < stream.values@.len() {
            let value = stream.values@[at.1];
            assert(views[at.0].values[at.1] == value.deep_view());
            if value@.len() >= 2 {
                assert(value.deep_view()[0] == value@[0].deep_view());
                assert(value.deep_view()[1] == value@[1].deep_view());
            }
        }
    }
}

/// The lines of a log file in the order in which its boot shows them.
proof fn lemma_lines(streams: Vec<LokiStream>, file: Seq<char>) -> (all: Seq<(int, int)>)
    ensures
        are_lines(streams@, file, all),
        order::stable_sorted(boots::file_entries(streams.deep_view(), file)).len() == all.len(),
        forall|k: int|
            0 <= k < all.len() ==> (#[trigger] order::stable_sorted(
                boots::file_entries(streams.deep_view(), file),
            )[k]) == (EntryView {
                ts_ns: ts_at(streams@, all[k]),
                line: line_at(streams@, all[k]),
            }),
{
    let views = streams.deep_view();
    let entries = boots::file_entries(views, file);
    let sorted = order::stable_sorted(entries);
    let at = lemma_file_entries_lists(views, file);
    let perm = order::lemma_stable_sort_lists(entries);
    let all = Seq::new(perm.len(), |k: int| at[perm[k]]);
    assert forall|k: int| 0 <= k < all.len() implies is_line(streams@, file, #[trigger] all[k])
        && sorted[k] == (EntryView {
        ts_ns: ts_at(streams@, all[k]),
        line: line_at(streams@, all[k]),
    }) by {
        assert(0 <= perm[k] < at.len());
        assert(in_file(views, file, at[perm[k]]));
        lemma_is_line(streams, file, all[k]);
        assert(sorted[k] == entries[perm[k]]);
    }
    assert forall|p: (int, int)| #[trigger] is_line(streams@, file, p) implies all.contains(p) by {
        lemma_is_line(streams, file, p);
        assert(at.contains(p));
        let j = choose|j: int| 0 <= j < at.len() && at[j] == p;
        assert(perm.contains(j));
        let k = choose|k: int| 0 <= k < perm.len() && perm[k] == j;
        assert(all[k] == p);
    }
    assert forall|a: int, b: int| 0 <= a < b < all.len() implies {
        ||| ts_at(streams@, #[trigger] all[a]) < ts_at(streams@, #[trigger] all[b])
        ||| ts_at(streams@, all[a]) == ts_at(streams@, all[b]) && is_before(all[a], all[b])
    } by {
        assert(perm[a] != perm[b]);
        assert(sorted[a] == entries[perm[a]] && sorted[b] == entries[perm[b]]);
        assert(is_line(streams@, file, all[a]) && is_line(streams@, file, all[b]));
        assert(sorted[a].ts_ns == ts_at(streams@, all[a]));
        assert(sorted[b].ts_ns == ts_at(streams@, all[b]));
        assert(entries[perm[a]].ts_ns <= entries[perm[b]].ts_ns);
        if perm[a] < perm[b] {
            assert(is_before(at[perm[a]], at[perm[b]]));
        }
    }
    all
}

proof fn lemma_file_pod(streams: Vec<LokiStream>, file: Seq<char>, n: int)
    requires
        0 <= n <= streams@.len(),
    ensures
        ({
            let pod = boots::file_pod(streams.deep_view().take(n), file);
            let s = streams@;
            ||| exists|i: int|
                #![trigger s[i]]
                {
                    &&& 0 <= i < n
                    &&& s[i].filename@ == file
                    &&& s[i].pod@ == pod
                    &&& pod.len() > 0
                    &&& forall|j: int|
                        0 <= j < i && (#[trigger] s[j]).filename@ == file ==> s[j].pod@.len() == 0
                }
            ||| {
                &&& pod.len() == 0
                &&& forall|j: int|
                    0 <= j < n && (#[trigger] s[j]).filename@ == file ==> s[j].pod@.len() == 0
            }
        }),
    decreases n,
{
    let views = streams.deep_view();
    if n > 0 {
        lemma_file_pod(streams, file, n - 1);
        assert(views.take(n).drop_last() =~= views.take(n - 1));
        assert(views.take(n).last() == streams@[n - 1].deep_view());
        let before = boots::file_pod(views.take(n - 1), file);
        if before.len() == 0 && streams@[n - 1].filename@ == file && streams@[n - 1].pod@.len()
            > 0 {
            assert(streams@[n - 1].pod@ == boots::file_pod(views.take(n), file));
        }
    }
}

proof fn lemma_is_boot(streams: Vec<LokiStream>, file: Seq<char>, max_lines: nat, boot: Boot)
    requires
        boots::file_boot(streams.deep_view(), file, max_lines) == Some(boot.deep_view()),
    ensures
        max_lines > 0,
        is_boot(streams@, file, max_lines, boot),
{
    let views = streams.deep_view();
    let all = lemma_lines(streams, file);
    lemma_file_pod(streams, file, streams@.len() as int);
    assert(views.take(streams@.len() as int) =~= views);
    let sorted = order::stable_sorted(boots::file_entries(views, file));
    let kept = boots::tail(sorted, max_lines);
    let from = sorted.len() - kept.len();
    assert(kept.len() > 0);
    assert(kept.first() == sorted[from] && kept.last() == sorted[sorted.len() - 1]);
    let lines = boot.lines.deep_view();
    assert(boot.deep_view().lines == lines);
    assert(lines == kept.map_values(|e: EntryView| e.line));
    assert(lines.len() == boot.lines@.len());
    assert forall|k: int| 0 <= k < kept.len() implies (#[trigger] boot.lines@[k])@ == line_at(
        streams@,
        all[from + k],
    ) by {
        assert(lines[k] == boot.lines@[k]@);
        assert(lines[k] == kept[k].line);
        assert(kept[k] == sorted[from + k]);
    }
    assert(are_lines(streams@, file, all) && shows_last(streams@, all, max_lines, boot));
}

// --- The law ---

proof fn lemma_boots_of_lists(
    streams: Seq<LokiStreamView>,
    files: Seq<Seq<char>>,
    max_lines: nat,
) -> (shown: Seq<int>)
    ensures
        boots::boots_of(streams, files, max_lines).len() == shown.len(),
        forall|k: int|
            0 <= k < shown.len() ==> 0 <= #[trigger] shown[k] < files.len() && boots::file_boot(
                streams,
                files[shown[k]],
                max_lines,
            ) == Some(boots::boots_of(streams, files, max_lines)[k]),
        forall|a: int, b: int| 0 <= a < b < shown.len() ==> #[trigger] shown[a] < #[trigger] shown[b],
        forall|j: int|
            0 <= j < files.len() && boots::file_boot(streams, files[j], max_lines) is Some
                ==> #[trigger] shown.contains(j),
    decreases files.len(),
{
    if files.len() == 0 {
        Seq::empty()
    } else {
        let front = files.drop_last();
        let last = files.len() - 1;
        let before = lemma_boots_of_lists(streams, front, max_lines);
        let shown = match boots::file_boot(streams, files.last(), max_lines) {
            Some(_) => before.push(last),
            None => before,
        };
        assert forall|k: int| 0 <= k < shown.len() implies 0 <= #[trigger] shown[k] < files.len()
            && boots::file_boot(streams, files[shown[k]], max_lines) == Some(
            boots::boots_of(streams, files, max_lines)[k],
        ) by {
            if k < before.len() {
                assert(shown[k] == before[k]);
                assert(front[before[k]] == files[before[k]]);
            }
        }
        assert forall|j: int|
            0 <= j < files.len() && boots::file_boot(streams, files[j], max_lines)
                is Some implies #[trigger] shown.contains(j) by {
            if j < last {
                assert(front[j] == files[j]);
                assert(before.contains(j));
                let k = choose|k: int| 0 <= k < before.len() && before[k] == j;
                assert(shown[k] == j);
            } else {
                assert(shown[shown.len() - 1] == j);
            }
        }
        shown
    }
}

/// The newest line of one log file is no older, in milliseconds, than any of another.
pub open spec fn ends_no_earlier(
    streams: Seq<LokiStream>,
    file: Seq<char>,
    other: Seq<char>,
) -> bool {
    forall|b: (int, int)| #[trigger]
        is_line(streams, other, b) ==> exists|a: (int, int)| #[trigger]
            is_line(streams, file, a) && ts_at(streams, a) / 1_000_000 >= ts_at(streams, b)
                / 1_000_000
}

/// The boots of an answer: where a line may be kept, each log file that has a line gives
/// one boot, which shows all its lines by time or the last of them that may be kept. The
/// newest come first, those of one end by the names of their log files, and as many as
/// may be shown are.
pub proof fn lemma_boots_from_loki(
    streams: Vec<LokiStream>,
    max_boots: usize,
    max_lines: usize,
    boots: Vec<Boot>,
) -> (files: Seq<Seq<char>>)
    requires
        call_ensures(boots::boots_from_loki, (streams, max_boots, max_lines), boots) || exists|
            status: u16,
            params: HistoryParams,
        |
            200 <= status <= 299 && params.boots == max_boots && params.lines == max_lines
                && #[trigger] answers_with(streams, status, params, boots),
    ensures
        max_lines == 0 ==> boots@.len() == 0,
        max_lines > 0 ==> boots@.len() == if files.len() <= max_boots {
            files.len()
        } else {
            max_boots as nat
        },
        max_lines > 0 ==> forall|file: Seq<char>, at: (int, int)| #[trigger]
            is_line(streams@, file, at) ==> files.contains(file),
        forall|k: int| 0 <= k < files.len() ==> has_line(streams@, #[trigger] files[k]),
        forall|k: int|
            0 <= k < boots@.len() ==> is_boot(
                streams@,
                files[k],
                max_lines as nat,
                #[trigger] boots@[k],
            ),
        forall|a: int, b: int|
            0 <= a < b < files.len() ==> {
                &&& #[trigger] files[a] != #[trigger] files[b]
                &&& ends_no_earlier(streams@, files[a], files[b])
                &&& ends_no_earlier(streams@, files[b], files[a]) ==> text::text_le(
                    files[a],
                    files[b],
                )
            },
{
    let n = max_lines as nat;
    let views = streams.deep_view();
    let files = lemma_history_files(streams, n);
    let sorted = order::stable_sorted(boots::boots_of(views, boots::files_of(views), n));
    let shown = boots.deep_view();
    assert(shown == boots::history_of(views, max_boots as nat, n));
    assert(shown.len() == boots@.len());
    assert forall|k: int| 0 <= k < files.len() implies has_line(streams@, #[trigger] files[k]) by {
        lemma_boot_has_line(streams, files[k], n);
    }
    assert forall|k: int| 0 <= k < boots@.len() implies is_boot(
        streams@,
        files[k],
        n,
        #[trigger] boots@[k],
    ) by {
        assert(shown[k] == boots@[k].deep_view());
        assert(shown[k] == sorted[k]);
        assert(boots::file_boot(views, files[k], n) == Some(sorted[k]));
        lemma_is_boot(streams, files[k], n, boots@[k]);
    }
    if boots@.len() > 0 {
        assert(shown[0] == sorted[0]);
        assert(shown[0] == boots@[0].deep_view());
        assert(boots::file_boot(views, files[0], n) == Some(sorted[0]));
        lemma_is_boot(streams, files[0], n, boots@[0]);
    }
    if n > 0 {
        assert forall|file: Seq<char>, at: (int, int)| #[trigger]
            is_line(streams@, file, at) implies files.contains(file) by {
            lemma_line_has_boot(streams, file, n, at);
        }
    }
    assert forall|a: int, b: int| 0 <= a < b < files.len() implies {
        &&& #[trigger] files[a] != #[trigger] files[b]
        &&& ends_no_earlier(streams@, files[a], files[b])
        &&& ends_no_earlier(streams@, files[b], files[a]) ==> text::text_le(files[a], files[b])
    } by {
        assert(boots::file_boot(views, files[a], n) == Some(sorted[a]));
        assert(boots::file_boot(views, files[b], n) == Some(sorted[b]));
        lemma_ends(streams, files[a], files[b], n);
    }
    files
}

/// The log files of the boots, in the order of the history.
proof fn lemma_history_files(streams: Vec<LokiStream>, n: nat) -> (files: Seq<Seq<char>>)
    ensures
        ({
            let views = streams.deep_view();
            let sorted = order::stable_sorted(boots::boots_of(views, boots::files_of(views), n));
            &&& sorted.len() == files.len()
            &&& forall|k: int|
                0 <= k < files.len() ==> boots::file_boot(views, #[trigger] files[k], n) == Some(
                    sorted[k],
                )
            &&& forall|file: Seq<char>|
                boots::has_file(views, file) && boots::file_boot(views, file, n) is Some
                    ==> #[trigger] files.contains(file)
            &&& forall|a: int, b: int|
                0 <= a < b < files.len() ==> {
                    &&& #[trigger] files[a] != #[trigger] files[b]
                    &&& sorted[a].end_ms >= sorted[b].end_ms
                    &&& sorted[a].end_ms == sorted[b].end_ms ==> text::text_le(files[a], files[b])
                }
        }),
{
    let views = streams.deep_view();
    let listing = boots::files_of(views);
    boots::lemma_files_of(views);
    let unsorted = boots::boots_of(views, listing, n);
    let listed = lemma_boots_of_lists(views, listing, n);
    let perm = order::lemma_stable_sort_lists(unsorted);
    let sorted = order::stable_sorted(unsorted);
    let files = Seq::new(perm.len(), |k: int| listing[listed[perm[k]]]);
    assert forall|k: int| 0 <= k < files.len() implies boots::file_boot(
        views,
        #[trigger] files[k],
        n,
    ) == Some(sorted[k]) by {
        assert(0 <= perm[k] < listed.len());
        assert(0 <= listed[perm[k]] < listing.len());
        assert(sorted[k] == unsorted[perm[k]]);
    }
    assert forall|file: Seq<char>|
        boots::has_file(views, file) && boots::file_boot(views, file, n) is Some implies #[trigger] files.contains(
    file) by {
        assert(listing.contains(file));
        let j = choose|j: int| 0 <= j < listing.len() && listing[j] == file;
        assert(listed.contains(j));
        let k = choose|k: int| 0 <= k < listed.len() && listed[k] == j;
        assert(perm.contains(k));
        let m = choose|m: int| 0 <= m < perm.len() && perm[m] == k;
        assert(files[m] == file);
    }
    assert forall|a: int, b: int| 0 <= a < b < files.len() implies {
        &&& #[trigger] files[a] != #[trigger] files[b]
        &&& sorted[a].end_ms >= sorted[b].end_ms
        &&& sorted[a].end_ms == sorted[b].end_ms ==> text::text_le(files[a], files[b])
    } by {
        let i = listed[perm[a]];
        let j = listed[perm[b]];
        assert(perm[a] != perm[b]);
        assert(0 <= perm[a] < listed.len() && 0 <= perm[b] < listed.len());
        assert(0 <= i < listing.len() && 0 <= j < listing.len());
        assert(sorted[a] == unsorted[perm[a]] && sorted[b] == unsorted[perm[b]]);
        if perm[a] < perm[b] {
            assert(i < j);
            assert(boots::text_lt(listing[i], listing[j]));
        } else {
            assert(listed[perm[b]] < listed[perm[a]]);
            assert(boots::text_lt(listing[j], listing[i]));
        }
    }
    files
}

proof fn lemma_boot_has_line(streams: Vec<LokiStream>, file: Seq<char>, n: nat)
    requires
        boots::file_boot(streams.deep_view(), file, n) is Some,
    ensures
        has_line(streams@, file),
{
    let all = lemma_lines(streams, file);
    assert(is_line(streams@, file, all[0]));
}

proof fn lemma_line_has_boot(streams: Vec<LokiStream>, file: Seq<char>, n: nat, at: (int, int))
    requires
        is_line(streams@, file, at),
        n > 0,
    ensures
        boots::has_file(streams.deep_view(), file),
        boots::file_boot(streams.deep_view(), file, n) is Some,
{
    lemma_is_line(streams, file, at);
    assert(streams.deep_view()[at.0].filename == file);
    let all = lemma_lines(streams, file);
    assert(all.contains(at));
}

proof fn lemma_ends(streams: Vec<LokiStream>, file: Seq<char>, other: Seq<char>, n: nat)
    requires
        boots::file_boot(streams.deep_view(), file, n) is Some,
        boots::file_boot(streams.deep_view(), other, n) is Some,
        boots::file_boot(streams.deep_view(), file, n)->0.end_ms >= boots::file_boot(
            streams.deep_view(),
            other,
            n,
        )->0.end_ms,
    ensures
        ends_no_earlier(streams@, file, other),
        ends_no_earlier(streams@, other, file) ==> boots::file_boot(
            streams.deep_view(),
            file,
            n,
        )->0.end_ms == boots::file_boot(streams.deep_view(), other, n)->0.end_ms,
{
    lemma_end(streams, file, n);
    lemma_end(streams, other, n);
    let x = lemma_lines(streams, file);
    let p = x[x.len() - 1];
    assert(is_line(streams@, file, p));
    assert forall|b: (int, int)| #[trigger] is_line(streams@, other, b) implies exists|
        a: (int, int),
    | #[trigger]
        is_line(streams@, file, a) && ts_at(streams@, a) / 1_000_000 >= ts_at(streams@, b)
            / 1_000_000 by {
        assert(is_line(streams@, file, p) && ts_at(streams@, p) / 1_000_000 >= ts_at(streams@, b)
            / 1_000_000);
    }
    if ends_no_earlier(streams@, other, file) {
        let b = choose|b: (int, int)| #[trigger]
            is_line(streams@, other, b) && ts_at(streams@, b) / 1_000_000 >= ts_at(streams@, p)
                / 1_000_000;
        assert(is_line(streams@, other, b));
    }
}

/// The end of a boot is the time of the newest line of its log file.
proof fn lemma_end(streams: Vec<LokiStream>, file: Seq<char>, n: nat)
    requires
        boots::file_boot(streams.deep_view(), file, n) is Some,
    ensures
        ({
            let end = boots::file_boot(streams.deep_view(), file, n)->0.end_ms;
            &&& forall|at: (int, int)| #[trigger]
                is_line(streams@, file, at) ==> ts_at(streams@, at) / 1_000_000 <= end
            &&& forall|all: Seq<(int, int)>| #[trigger]
                are_lines(streams@, file, all) ==> all.len() > 0 && ts_at(
                    streams@,
                    all[all.len() - 1],
                ) / 1_000_000 == end
        }),
{
    let x = lemma_lines(streams, file);
    let sorted = order::stable_sorted(boots::file_entries(streams.deep_view(), file));
    let kept = boots::tail(sorted, n);
    let last = x.len() - 1;
    let end = boots::file_boot(streams.deep_view(), file, n)->0.end_ms;
    assert(kept.last() == sorted[last]);
    assert(end == ts_at(streams@, x[last]) / 1_000_000);
    assert forall|at: (int, int)| #[trigger] is_line(streams@, file, at) implies ts_at(
        streams@,
        at,
    ) <= ts_at(streams@, x[last]) by {
        let k = choose|k: int| 0 <= k < x.len() && x[k] == at;
        assert(x[k] == at);
    }
    assert forall|all: Seq<(int, int)>| #[trigger] are_lines(
        streams@,
        file,
        all,
    ) implies all.len() > 0 && ts_at(streams@, all[all.len() - 1]) / 1_000_000 == end by {
        assert(is_line(streams@, file, x[last]));
        let k = choose|k: int| 0 <= k < all.len() && all[k] == x[last];
        assert(all[k] == x[last]);
        let z = all[all.len() - 1];
        assert(is_line(streams@, file, z));
        assert(ts_at(streams@, all[k]) <= ts_at(streams@, z));
        assert(ts_at(streams@, z) <= ts_at(streams@, x[last]));
    }
}

// --- Ids ---

/// The log file `<count>.log`, in whatever directory, is that of the restart `count`.
pub proof fn lemma_boot_id_of_restart(pod: Seq<char>, directory: Seq<char>, count: Seq<char>)
    requires
        count.len() > 0,
        forall|i: int| 0 <= i < count.len() ==> '0' <= #[trigger] count[i] <= '9',
    ensures
        boots::boot_id_text(pod, count + ".log"@) == pod + "#"@ + count,
        boots::boot_id_text(pod, directory + "/"@ + count + ".log"@) == pod + "#"@ + count,
{
    reveal_strlit(".log");
    reveal_strlit("/");
    let name = count + ".log"@;
    assert forall|i: int| 0 <= i < name.len() implies #[trigger] name[i] != '/' by {
        if i < count.len() {
            assert(name[i] == count[i]);
        }
    }
    boots::lemma_last_segment(name, 0);
    assert(name.skip(0) =~= name);
    let full = directory + "/"@ + count + ".log"@;
    let k = directory.len() as int + 1;
    assert(full[k - 1] == '/');
    assert forall|j: int| k <= j < full.len() implies #[trigger] full[j] != '/' by {
        assert(full[j] == name[j - k]);
    }
    boots::lemma_last_segment(full, k);
    assert(full.skip(k) =~= name);
    text::lemma_before_suffix_of(count, ".log"@);
    assert forall|i: int| 0 <= i < count.len() implies text::is_digit(#[trigger] count[i]) by {}
}

/// A boot's id is the name of its log file, unless that ends in `<count>.log` behind its
/// last slash: then it is the pod and the count.
pub proof fn lemma_boot_id(pod: &str, filename: &str, id: String)
    requires
        call_ensures(boots::boot_id, (pod, filename), id),
    ensures
        id@ == filename@ || exists|cut: int, count: Seq<char>|
            #![trigger filename@.skip(cut), count.len()]
            {
                &&& 0 <= cut <= filename@.len()
                &&& cut == 0 || filename@[cut - 1] == '/'
                &&& filename@.skip(cut) == count + ".log"@
                &&& count.len() > 0
                &&& forall|i: int| 0 <= i < count.len() ==> '0' <= #[trigger] count[i] <= '9'
                &&& id@ == pod@ + "#"@ + count
            },
        forall|directory: Seq<char>, count: Seq<char>|
            #![trigger directory + "/"@ + count + ".log"@]
            filename@ == directory + "/"@ + count + ".log"@ && count.len() > 0 && (forall|i: int|
                0 <= i < count.len() ==> '0' <= #[trigger] count[i] <= '9') ==> id@ == pod@ + "#"@
                + count,
        forall|count: Seq<char>|
            #![trigger count + ".log"@]
            filename@ == count + ".log"@ && count.len() > 0 && (forall|i: int|
                0 <= i < count.len() ==> '0' <= #[trigger] count[i] <= '9') ==> id@ == pod@ + "#"@
                + count,
{
    let f = filename@;
    if let Some(count) = boots::restart_count(f) {
        let cut = lemma_cut(f);
        text::lemma_before_suffix(boots::last_segment(f), ".log"@);
        assert(f.skip(cut) == count + ".log"@);
        assert forall|i: int| 0 <= i < count.len() implies '0' <= #[trigger] count[i] <= '9' by {
            assert(text::is_digit(count[i]));
        }
        assert(count.len() > 0);
    }
    assert forall|directory: Seq<char>, count: Seq<char>|
        #![trigger directory + "/"@ + count + ".log"@]
        f == directory + "/"@ + count + ".log"@ && count.len() > 0 && (forall|i: int|
            0 <= i < count.len() ==> '0' <= #[trigger] count[i] <= '9') implies id@ == pod@ + "#"@
        + count by {
        lemma_boot_id_of_restart(pod@, directory, count);
    }
    assert forall|count: Seq<char>|
        #![trigger count + ".log"@]
        f == count + ".log"@ && count.len() > 0 && (forall|i: int|
            0 <= i < count.len() ==> '0' <= #[trigger] count[i] <= '9') implies id@ == pod@ + "#"@
        + count by {
        lemma_boot_id_of_restart(pod@, Seq::empty(), count);
    }
}

proof fn lemma_cut(path: Seq<char>) -> (cut: int)
    ensures
        0 <= cut <= path.len(),
        cut == 0 || path[cut - 1] == '/',
        boots::last_segment(path) == path.skip(cut),
    decreases path.len(),
{
    if path.len() == 0 || path.last() == '/' {
        assert(path.skip(path.len() as int) =~= Seq::<char>::empty());
        path.len() as int
    } else {
        let cut = lemma_cut(path.drop_last());
        assert(path.drop_last().skip(cut).push(path.last()) =~= path.skip(cut));
        cut
    }
}

}
