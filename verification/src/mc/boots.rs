//! The container boots that a log query answers with, each with its log tail.

use vstd::prelude::*;

use crate::order;
use crate::order::{Rankable, Ranked};
use crate::text;
use vstd::string::StringExecFns;

verus! {

// --- Boot ids ---

/// What follows the last slash of `path`, or all of it where there is no slash.
pub open spec fn last_segment(path: Seq<char>) -> Seq<char>
    decreases path.len(),
{
    if path.len() == 0 || path.last() == '/' {
        Seq::empty()
    } else {
        last_segment(path.drop_last()).push(path.last())
    }
}

/// The restart count in a log file's name, `.../<restart count>.log`.
pub open spec fn restart_count(filename: Seq<char>) -> Option<Seq<char>> {
    match text::before_suffix(last_segment(filename), ".log"@) {
        Some(stem) => if stem.len() > 0 && text::all_digits(stem) {
            Some(stem)
        } else {
            None
        },
        None => None,
    }
}

/// The id of a boot: its pod and its restart count, or the name of its log file
/// where that holds no restart count.
pub open spec fn boot_id_text(pod: Seq<char>, filename: Seq<char>) -> Seq<char> {
    match restart_count(filename) {
        Some(count) => pod + "#"@ + count,
        None => filename,
    }
}

/// The last segment begins behind the last slash.
pub proof fn lemma_last_segment(path: Seq<char>, k: int)
    requires
        0 <= k <= path.len(),
        forall|j: int| k <= j < path.len() ==> #[trigger] path[j] != '/',
        k == 0 || path[k - 1] == '/',
    ensures
        last_segment(path) == path.skip(k),
    decreases path.len(),
{
    if k < path.len() {
        assert(path[path.len() - 1] != '/');
        assert forall|j: int| k <= j < path.drop_last().len() implies #[trigger] path.drop_last()[j]
            != '/' by {
            assert(path[j] != '/');
        }
        lemma_last_segment(path.drop_last(), k);
        assert(path.drop_last().skip(k).push(path.last()) =~= path.skip(k));
    } else {
        assert(path.skip(k) =~= Seq::<char>::empty());
    }
}

fn segment_of(path: &str) -> (r: String)
    ensures
        r@ == last_segment(path@),
{
    let cs = text::chars_of(path);
    let mut k: usize = cs.len();
    while k > 0 && cs[k - 1] != '/'
        invariant
            k <= cs@.len(),
            cs@ == path@,
            forall|j: int| k <= j < cs@.len() ==> #[trigger] cs@[j] != '/',
        decreases k,
    {
        k = k - 1;
    }
    proof {
        lemma_last_segment(path@, k as int);
        assert(path@.skip(k as int) =~= path@.subrange(k as int, path@.len() as int));
    }
    text::string_between(&cs, k, cs.len())
}

fn only_digits(s: &str) -> (r: bool)
    ensures
        r == text::all_digits(s@),
{
    let cs = text::chars_of(s);
    let mut i: usize = 0;
    while i < cs.len()
        invariant
            i <= cs@.len(),
            cs@ == s@,
            forall|j: int| 0 <= j < i ==> text::is_digit(#[trigger] s@[j]),
        decreases cs@.len() - i,
    {
        if !text::digit_char(cs[i]) {
            return false;
        }
        i = i + 1;
    }
    true
}

/// `<pod>#<restart count>`, with the restart count from the last segment of
/// `filename`; `filename` itself where that is no `<restart count>.log`.
pub fn boot_id(pod: &str, filename: &str) -> (r: String)
    ensures
        r@ == boot_id_text(pod@, filename@),
{
    match text::strip_suffix(segment_of(filename).as_str(), ".log") {
        Some(stem) if !stem.as_str().is_empty() && only_digits(stem.as_str()) => {
            let mut id = String::new();
            id.append(pod);
            id.append("#");
            id.append(stem.as_str());
            id
        },
        _ => filename.to_owned(),
    }
}

// --- Log streams and boots ---

/// One log stream of a query's answer. Each value is a pair of a timestamp in
/// nanoseconds and a line, both as text; a part that is no text is `None`, and parts
/// behind the first two are ignored.
pub struct LokiStream {
    pub pod: String,
    pub filename: String,
    pub values: Vec<Vec<Option<String>>>,
}

pub struct LokiStreamView {
    pub pod: Seq<char>,
    pub filename: Seq<char>,
    pub values: Seq<Seq<Option<Seq<char>>>>,
}

impl DeepView for LokiStream {
    type V = LokiStreamView;

    open spec fn deep_view(&self) -> LokiStreamView {
        LokiStreamView {
            pod: self.pod@,
            filename: self.filename@,
            values: self.values.deep_view(),
        }
    }
}

/// A log line with its timestamp in nanoseconds.
pub struct Entry {
    pub ts_ns: u64,
    pub line: String,
}

pub struct EntryView {
    pub ts_ns: u64,
    pub line: Seq<char>,
}

impl DeepView for Entry {
    type V = EntryView;

    open spec fn deep_view(&self) -> EntryView {
        EntryView { ts_ns: self.ts_ns, line: self.line@ }
    }
}

/// Lines rank by their time.
impl Ranked for EntryView {
    open spec fn rank_le(a: Self, b: Self) -> bool {
        a.ts_ns <= b.ts_ns
    }

    proof fn rank_total(a: Self, b: Self) {
    }

    proof fn rank_transitive(a: Self, b: Self, c: Self) {
    }
}

impl Rankable for Entry {
    fn rank_at_most(&self, other: &Self) -> bool {
        self.ts_ns <= other.ts_ns
    }
}

/// One container boot: the tail of its log, oldest line first.
pub struct Boot {
    pub pod: String,
    pub id: String,
    /// When the first of `lines` was written, in milliseconds.
    pub start_ms: u64,
    /// When the last of `lines` was written, in milliseconds.
    pub end_ms: u64,
    pub lines: Vec<String>,
}

pub struct BootView {
    pub pod: Seq<char>,
    pub id: Seq<char>,
    pub start_ms: u64,
    pub end_ms: u64,
    pub lines: Seq<Seq<char>>,
}

impl DeepView for Boot {
    type V = BootView;

    open spec fn deep_view(&self) -> BootView {
        BootView {
            pod: self.pod@,
            id: self.id@,
            start_ms: self.start_ms,
            end_ms: self.end_ms,
            lines: self.lines.deep_view(),
        }
    }
}

/// Boots rank by the time of their last line, the newest first.
impl Ranked for BootView {
    open spec fn rank_le(a: Self, b: Self) -> bool {
        a.end_ms >= b.end_ms
    }

    proof fn rank_total(a: Self, b: Self) {
    }

    proof fn rank_transitive(a: Self, b: Self, c: Self) {
    }
}

impl Rankable for Boot {
    fn rank_at_most(&self, other: &Self) -> bool {
        self.end_ms >= other.end_ms
    }
}

/// The line that a value holds: it takes a text that writes a timestamp and a text
/// that is the line.
pub open spec fn entry_of(value: Seq<Option<Seq<char>>>) -> Option<EntryView> {
    if value.len() >= 2 {
        match (value[0], value[1]) {
            (Some(ts), Some(line)) => match text::parsed_u64(ts) {
                Some(ts_ns) => Some(EntryView { ts_ns, line }),
                None => None,
            },
            _ => None,
        }
    } else {
        None
    }
}

/// The lines that the values hold, in the order of the values.
pub open spec fn entries_of(values: Seq<Seq<Option<Seq<char>>>>) -> Seq<EntryView>
    decreases values.len(),
{
    if values.len() == 0 {
        Seq::empty()
    } else {
        match entry_of(values.last()) {
            Some(entry) => entries_of(values.drop_last()).push(entry),
            None => entries_of(values.drop_last()),
        }
    }
}

/// Whether a stream comes from the log file `filename`.
pub open spec fn has_file(streams: Seq<LokiStreamView>, filename: Seq<char>) -> bool {
    exists|i: int| 0 <= i < streams.len() && #[trigger] streams[i].filename == filename
}

/// All lines from the log file `filename`, stream after stream.
pub open spec fn file_entries(streams: Seq<LokiStreamView>, filename: Seq<char>) -> Seq<EntryView>
    decreases streams.len(),
{
    if streams.len() == 0 {
        Seq::empty()
    } else if streams.last().filename == filename {
        file_entries(streams.drop_last(), filename) + entries_of(streams.last().values)
    } else {
        file_entries(streams.drop_last(), filename)
    }
}

/// The first pod named by a stream of the log file `filename`; empty if none is.
pub open spec fn file_pod(streams: Seq<LokiStreamView>, filename: Seq<char>) -> Seq<char>
    decreases streams.len(),
{
    if streams.len() == 0 {
        Seq::empty()
    } else {
        let before = file_pod(streams.drop_last(), filename);
        if before.len() == 0 && streams.last().filename == filename {
            streams.last().pod
        } else {
            before
        }
    }
}

/// The last `n` values of `s`, or all of them where there are fewer.
pub open spec fn tail<T>(s: Seq<T>, n: nat) -> Seq<T> {
    if s.len() > n {
        s.skip(s.len() - n)
    } else {
        s
    }
}

/// The boot that wrote `entries` to the log file `filename`, with its last
/// `max_lines` lines by time; none where no line is left.
pub open spec fn boot_of(
    pod: Seq<char>,
    filename: Seq<char>,
    entries: Seq<EntryView>,
    max_lines: nat,
) -> Option<BootView> {
    let kept = tail(order::stable_sorted(entries), max_lines);
    if kept.len() == 0 {
        None
    } else {
        Some(
            BootView {
                pod,
                id: boot_id_text(pod, filename),
                start_ms: kept.first().ts_ns / 1_000_000,
                end_ms: kept.last().ts_ns / 1_000_000,
                lines: kept.map_values(|e: EntryView| e.line),
            },
        )
    }
}

/// The boot of the log file `filename`.
pub open spec fn file_boot(
    streams: Seq<LokiStreamView>,
    filename: Seq<char>,
    max_lines: nat,
) -> Option<BootView> {
    boot_of(file_pod(streams, filename), filename, file_entries(streams, filename), max_lines)
}

/// `a` comes before `b` in the order of strings and is another string.
pub open spec fn text_lt(a: Seq<char>, b: Seq<char>) -> bool {
    text::text_le(a, b) && a != b
}

/// `files` lists the log files of the streams, each once, in the order of strings.
pub open spec fn is_listing(streams: Seq<LokiStreamView>, files: Seq<Seq<char>>) -> bool {
    &&& forall|i: int, j: int|
        0 <= i < j < files.len() ==> text_lt(#[trigger] files[i], #[trigger] files[j])
    &&& forall|f: Seq<char>| #[trigger] files.contains(f) <==> has_file(streams, f)
}

/// The log files of the streams, each once, in the order of strings.
pub open spec fn files_of(streams: Seq<LokiStreamView>) -> Seq<Seq<char>> {
    choose|files: Seq<Seq<char>>| is_listing(streams, files)
}

/// The boots of the given log files that have a line, in the order of the files.
pub open spec fn boots_of(
    streams: Seq<LokiStreamView>,
    files: Seq<Seq<char>>,
    max_lines: nat,
) -> Seq<BootView>
    decreases files.len(),
{
    if files.len() == 0 {
        Seq::empty()
    } else {
        match file_boot(streams, files.last(), max_lines) {
            Some(boot) => boots_of(streams, files.drop_last(), max_lines).push(boot),
            None => boots_of(streams, files.drop_last(), max_lines),
        }
    }
}

/// The newest `max_boots` boots of the streams, the newest first; of two that end in
/// one millisecond, the one whose log file comes first in the order of strings.
pub open spec fn history_of(
    streams: Seq<LokiStreamView>,
    max_boots: nat,
    max_lines: nat,
) -> Seq<BootView> {
    let all = order::stable_sorted(boots_of(streams, files_of(streams), max_lines));
    if all.len() > max_boots {
        all.take(max_boots as int)
    } else {
        all
    }
}

// --- Reading the lines ---

fn entry_in(value: &Vec<Option<String>>) -> (r: Option<Entry>)
    ensures
        r.deep_view() == entry_of(value.deep_view()),
{
    if value.len() < 2 {
        return None;
    }
    assert(value.deep_view()[0] == value@[0].deep_view());
    assert(value.deep_view()[1] == value@[1].deep_view());
    match (&value[0], &value[1]) {
        (Some(ts), Some(line)) => match text::parse_u64(ts.as_str()) {
            Some(ts_ns) => Some(Entry { ts_ns, line: line.clone() }),
            None => None,
        },
        _ => None,
    }
}

fn entries_in(values: &Vec<Vec<Option<String>>>) -> (r: Vec<Entry>)
    ensures
        r.deep_view() == entries_of(values.deep_view()),
{
    let mut r: Vec<Entry> = Vec::new();
    let mut i: usize = 0;
    assert(r.deep_view() =~= entries_of(values.deep_view().take(0)));
    while i < values.len()
        invariant
            i <= values@.len(),
            r.deep_view() == entries_of(values.deep_view().take(i as int)),
        decreases values@.len() - i,
    {
        let ghost before = r.deep_view();
        proof {
            let vs = values.deep_view();
            assert(vs[i as int] == values@[i as int].deep_view());
            assert(vs.take(i + 1).drop_last() =~= vs.take(i as int));
            assert(vs.take(i + 1).last() == vs[i as int]);
        }
        if let Some(entry) = entry_in(&values[i]) {
            r.push(entry);
            assert(r.deep_view() =~= before.push(entry.deep_view()));
        }
        i = i + 1;
    }
    assert(values.deep_view().take(i as int) =~= values.deep_view());
    r
}

// --- Grouping by log file ---

/// The lines of one log file while the streams are read.
struct BootAccum {
    pod: String,
    filename: String,
    entries: Vec<Entry>,
}

spec fn names(groups: Seq<BootAccum>) -> Seq<Seq<char>> {
    groups.map_values(|g: BootAccum| g.filename@)
}

/// `groups` holds what the streams say, one group for each log file.
spec fn grouped(streams: Seq<LokiStreamView>, groups: Seq<BootAccum>) -> bool {
    &&& is_listing(streams, names(groups))
    &&& forall|i: int|
        0 <= i < groups.len() ==> (#[trigger] groups[i]).pod@ == file_pod(
            streams,
            groups[i].filename@,
        ) && groups[i].entries.deep_view() == file_entries(streams, groups[i].filename@)
}

proof fn lemma_file_absent(streams: Seq<LokiStreamView>, filename: Seq<char>)
    requires
        !has_file(streams, filename),
    ensures
        file_entries(streams, filename) == Seq::<EntryView>::empty(),
        file_pod(streams, filename) == Seq::<char>::empty(),
    decreases streams.len(),
{
    if streams.len() > 0 {
        assert(streams[streams.len() - 1].filename != filename);
        assert(!has_file(streams.drop_last(), filename)) by {
            if has_file(streams.drop_last(), filename) {
                let i = choose|i: int|
                    0 <= i < streams.drop_last().len() && #[trigger] streams.drop_last()[i].filename
                        == filename;
                assert(streams[i].filename == filename);
            }
        }
        lemma_file_absent(streams.drop_last(), filename);
    }
}

proof fn lemma_has_file_push(streams: Seq<LokiStreamView>, s: LokiStreamView, f: Seq<char>)
    ensures
        has_file(streams.push(s), f) <==> has_file(streams, f) || f == s.filename,
{
    let all = streams.push(s);
    if has_file(streams, f) {
        let i = choose|i: int| 0 <= i < streams.len() && #[trigger] streams[i].filename == f;
        assert(all[i].filename == f);
    }
    assert(all[streams.len() as int].filename == s.filename);
    if has_file(all, f) && f != s.filename {
        let i = choose|i: int| 0 <= i < all.len() && #[trigger] all[i].filename == f;
        assert(streams[i].filename == f);
    }
}

/// A place `p` for `name` in an ascending listing: all before it come before `name`,
/// and none from it on does.
proof fn lemma_listing_insert(
    streams: Seq<LokiStreamView>,
    files: Seq<Seq<char>>,
    p: int,
    s: LokiStreamView,
)
    requires
        is_listing(streams, files),
        0 <= p <= files.len(),
        forall|i: int| 0 <= i < p ==> text_lt(#[trigger] files[i], s.filename),
        forall|i: int| p <= i < files.len() ==> !text_lt(#[trigger] files[i], s.filename),
    ensures
        p < files.len() && files[p] == s.filename ==> is_listing(streams.push(s), files),
        p == files.len() || files[p] != s.filename ==> {
            &&& !has_file(streams, s.filename)
            &&& is_listing(streams.push(s), files.insert(p, s.filename))
        },
{
    let all = streams.push(s);
    assert forall|f: Seq<char>| has_file(all, f) <==> has_file(streams, f) || f == s.filename by {
        lemma_has_file_push(streams, s, f);
    }
    if p < files.len() && files[p] == s.filename {
        assert(files.contains(s.filename));
    } else {
        assert(!files.contains(s.filename)) by {
            if files.contains(s.filename) {
                let i = choose|i: int| 0 <= i < files.len() && files[i] == s.filename;
                assert(i >= p);
                if i > p {
                    assert(text_lt(files[p], files[i]));
                }
            }
        }
        let out = files.insert(p, s.filename);
        assert forall|i: int, j: int| 0 <= i < j < out.len() implies text_lt(
            #[trigger] out[i],
            #[trigger] out[j],
        ) by {
            let a = if i < p {
                i
            } else {
                i - 1
            };
            let b = if j < p {
                j
            } else {
                j - 1
            };
            if i == p {
                assert(out[j] == files[b]);
                text::lemma_text_le_total(files[b], s.filename);
                assert(files.contains(files[b]));
            } else if j == p {
                assert(out[i] == files[a]);
            } else {
                assert(out[i] == files[a] && out[j] == files[b]);
                assert(text_lt(files[a], files[b]));
            }
        }
        assert forall|f: Seq<char>| #[trigger] out.contains(f) <==> has_file(all, f) by {
            if out.contains(f) {
                let i = choose|i: int| 0 <= i < out.len() && out[i] == f;
                if i < p {
                    assert(files[i] == f);
                    assert(files.contains(f));
                } else if i > p {
                    assert(files[i - 1] == f);
                    assert(files.contains(f));
                }
            }
            if files.contains(f) {
                let i = choose|i: int| 0 <= i < files.len() && files[i] == f;
                if i < p {
                    assert(out[i] == f);
                } else {
                    assert(out[i + 1] == f);
                }
            }
            assert(out[p] == s.filename);
        }
    }
}

/// The place of `name` among groups that stand in the order of their names.
fn place_of(groups: &Vec<BootAccum>, name: &str) -> (p: usize)
    requires
        forall|i: int, j: int|
            0 <= i < j < groups@.len() ==> text_lt(
                #[trigger] groups@[i].filename@,
                #[trigger] groups@[j].filename@,
            ),
    ensures
        p <= groups@.len(),
        forall|i: int| 0 <= i < p ==> text_lt(#[trigger] groups@[i].filename@, name@),
        forall|i: int| p <= i < groups@.len() ==> !text_lt(#[trigger] groups@[i].filename@, name@),
{
    let mut p: usize = 0;
    while p < groups.len() && text::text_at_most(groups[p].filename.as_str(), name)
        && !text::same_text(groups[p].filename.as_str(), name)
        invariant
            p <= groups@.len(),
            forall|i: int| 0 <= i < p ==> text_lt(#[trigger] groups@[i].filename@, name@),
        decreases groups@.len() - p,
    {
        p = p + 1;
    }
    proof {
        assert forall|i: int| p <= i < groups@.len() implies !text_lt(
            #[trigger] groups@[i].filename@,
            name@,
        ) by {
            let here = groups@[p as int].filename@;
            let there = groups@[i].filename@;
            if i > p && text_lt(there, name@) {
                assert(text_lt(here, there));
                text::lemma_text_le_transitive(here, there, name@);
                text::lemma_text_le_total(here, there);
            }
        }
    }
    p
}

/// Adds what one more stream says to the groups.
fn add_stream(groups: &mut Vec<BootAccum>, stream: LokiStream, read: Ghost<Seq<LokiStreamView>>)
    requires
        grouped(read@, old(groups)@),
    ensures
        grouped(read@.push(stream.deep_view()), final(groups)@),
{
    let ghost before = groups@;
    let ghost s = stream.deep_view();
    let ghost all = read@.push(s);
    assert forall|i: int, j: int| 0 <= i < j < groups@.len() implies text_lt(
        #[trigger] groups@[i].filename@,
        #[trigger] groups@[j].filename@,
    ) by {
        assert(text_lt(names(before)[i], names(before)[j]));
    }
    let p = place_of(groups, stream.filename.as_str());
    proof {
        assert forall|i: int| 0 <= i < p implies text_lt(#[trigger] names(before)[i], s.filename) by {
            assert(text_lt(before[i].filename@, s.filename));
        }
        assert forall|i: int| p <= i < names(before).len() implies !text_lt(
            #[trigger] names(before)[i],
            s.filename,
        ) by {
            assert(!text_lt(before[i].filename@, s.filename));
        }
        lemma_listing_insert(read@, names(before), p as int, s);
        assert(all.drop_last() =~= read@);
    }
    let known = p < groups.len() && text::same_text(
        groups[p].filename.as_str(),
        stream.filename.as_str(),
    );
    let mut lines = entries_in(&stream.values);
    let ghost lines_read = lines.deep_view();
    let mut acc = if known {
        groups.remove(p)
    } else {
        proof {
            lemma_file_absent(read@, s.filename);
        }
        BootAccum { pod: String::new(), filename: stream.filename, entries: Vec::new() }
    };
    assert(acc.filename@ == s.filename);
    assert(acc.entries.deep_view() =~= file_entries(read@, s.filename));
    assert(acc.pod@ =~= file_pod(read@, s.filename));
    let ghost had = acc.entries.deep_view();
    if acc.pod.as_str().is_empty() {
        acc.pod = stream.pod;
    }
    acc.entries.append(&mut lines);
    assert(acc.entries.deep_view() =~= had + lines_read);
    assert(acc.pod@ == file_pod(all, s.filename));
    assert(acc.entries.deep_view() == file_entries(all, s.filename));
    let ghost added = acc;
    groups.insert(p, acc);
    proof {
        let after = groups@;
        if known {
            assert(names(after) =~= names(before));
        } else {
            assert(names(after) =~= names(before).insert(p as int, s.filename));
        }
        assert(is_listing(all, names(after)));
        assert forall|i: int| 0 <= i < after.len() implies (#[trigger] after[i]).pod@ == file_pod(
            all,
            after[i].filename@,
        ) && after[i].entries.deep_view() == file_entries(all, after[i].filename@) by {
            if i == p {
                assert(after[i] == added);
            } else {
                let k = if i < p || known {
                    i
                } else {
                    i - 1
                };
                assert(after[i] == before[k]);
                assert(after[i].filename@ != s.filename) by {
                    assert(names(after)[i] == after[i].filename@);
                    assert(names(after)[p as int] == s.filename);
                    if i < p {
                        assert(text_lt(names(after)[i], names(after)[p as int]));
                    } else {
                        assert(text_lt(names(after)[p as int], names(after)[i]));
                    }
                }
            }
        }
    }
}

/// The groups of the streams.
fn group(streams: Vec<LokiStream>) -> (groups: Vec<BootAccum>)
    ensures
        grouped(streams.deep_view(), groups@),
{
    let ghost all = streams.deep_view();
    let mut groups: Vec<BootAccum> = Vec::new();
    assert(grouped(all.take(0), groups@)) by {
        assert(names(groups@) =~= Seq::<Seq<char>>::empty());
    }
    for stream in it: streams
        invariant
            it.seq() == streams@,
            all == streams.deep_view(),
            grouped(all.take(it.index()), groups@),
    {
        assert(all.take(it.index() + 1) =~= all.take(it.index()).push(stream.deep_view()));
        add_stream(&mut groups, stream, Ghost(all.take(it.index())));
    }
    assert(all.take(all.len() as int) =~= all);
    groups
}

// --- Building the boots ---

/// The lines of the entries, in order.
fn lines_of(entries: Vec<Entry>) -> (r: Vec<String>)
    ensures
        r.deep_view() == entries.deep_view().map_values(|e: EntryView| e.line),
{
    let ghost all = entries.deep_view();
    let mut r: Vec<String> = Vec::new();
    for entry in it: entries
        invariant
            it.seq() == entries@,
            all == entries.deep_view(),
            r@.len() == it.index(),
            forall|i: int| 0 <= i < r@.len() ==> (#[trigger] r@[i])@ == all[i].line,
    {
        assert(all[it.index()] == entry.deep_view());
        r.push(entry.line);
    }
    assert(r.deep_view() =~= all.map_values(|e: EntryView| e.line));
    r
}

/// Drops all but the last `n` entries.
fn keep_tail(entries: Vec<Entry>, n: usize) -> (r: Vec<Entry>)
    ensures
        r.deep_view() == tail(entries.deep_view(), n as nat),
{
    let mut entries = entries;
    if entries.len() > n {
        let cut = entries.len() - n;
        let ghost all = entries.deep_view();
        let r = entries.split_off(cut);
        assert(r.deep_view() =~= all.skip(cut as int));
        r
    } else {
        entries
    }
}

fn finish_boot(acc: BootAccum, max_lines: usize) -> (r: Option<Boot>)
    ensures
        r.deep_view() == boot_of(
            acc.pod@,
            acc.filename@,
            acc.entries.deep_view(),
            max_lines as nat,
        ),
{
    let kept = keep_tail(order::stable_sort(acc.entries), max_lines);
    if kept.len() == 0 {
        return None;
    }
    let ghost shown = kept.deep_view();
    let start_ms = kept[0].ts_ns / 1_000_000;
    let end_ms = kept[kept.len() - 1].ts_ns / 1_000_000;
    assert(shown.first() == kept@[0].deep_view());
    assert(shown.last() == kept@[kept@.len() - 1].deep_view());
    let id = boot_id(acc.pod.as_str(), acc.filename.as_str());
    let lines = lines_of(kept);
    Some(Boot { pod: acc.pod, id, start_ms, end_ms, lines })
}

/// The log files have one listing only.
proof fn lemma_listing_unique(
    streams: Seq<LokiStreamView>,
    a: Seq<Seq<char>>,
    b: Seq<Seq<char>>,
)
    requires
        is_listing(streams, a),
        is_listing(streams, b),
    ensures
        a == b,
{
    assert forall|f: Seq<char>| a.contains(f) <==> b.contains(f) by {
        assert(a.contains(f) <==> has_file(streams, f));
        assert(b.contains(f) <==> has_file(streams, f));
    }
    lemma_ascending_unique(a, b);
}

proof fn lemma_ascending_unique(a: Seq<Seq<char>>, b: Seq<Seq<char>>)
    requires
        forall|i: int, j: int| 0 <= i < j < a.len() ==> text_lt(#[trigger] a[i], #[trigger] a[j]),
        forall|i: int, j: int| 0 <= i < j < b.len() ==> text_lt(#[trigger] b[i], #[trigger] b[j]),
        forall|f: Seq<char>| a.contains(f) <==> b.contains(f),
    ensures
        a == b,
    decreases a.len(),
{
    if a.len() == 0 {
        if b.len() > 0 {
            assert(b.contains(b[0]));
        }
    } else {
        assert(a.contains(a[0]));
        assert(b.contains(a[0]));
        assert(b.contains(b[0]));
        assert(a.contains(b[0]));
        let i = choose|i: int| 0 <= i < a.len() && a[i] == b[0];
        let j = choose|j: int| 0 <= j < b.len() && b[j] == a[0];
        if i > 0 {
            assert(text_lt(a[0], a[i]));
            if j > 0 {
                assert(text_lt(b[0], b[j]));
                text::lemma_text_le_total(a[0], b[0]);
            }
        }
        assert(a[0] == b[0]);
        let at = a.drop_first();
        let bt = b.drop_first();
        assert forall|k: int, l: int| 0 <= k < l < at.len() implies text_lt(
            #[trigger] at[k],
            #[trigger] at[l],
        ) by {
            assert(text_lt(a[k + 1], a[l + 1]));
        }
        assert forall|k: int, l: int| 0 <= k < l < bt.len() implies text_lt(
            #[trigger] bt[k],
            #[trigger] bt[l],
        ) by {
            assert(text_lt(b[k + 1], b[l + 1]));
        }
        assert forall|f: Seq<char>| at.contains(f) <==> bt.contains(f) by {
            lemma_rest_contains(a, f);
            lemma_rest_contains(b, f);
        }
        lemma_ascending_unique(at, bt);
        assert(a =~= seq![a[0]] + at);
        assert(b =~= seq![b[0]] + bt);
    }
}

proof fn lemma_rest_contains(a: Seq<Seq<char>>, f: Seq<char>)
    requires
        a.len() > 0,
        forall|i: int, j: int| 0 <= i < j < a.len() ==> text_lt(#[trigger] a[i], #[trigger] a[j]),
    ensures
        a.drop_first().contains(f) <==> a.contains(f) && f != a[0],
{
    let at = a.drop_first();
    if at.contains(f) {
        let i = choose|i: int| 0 <= i < at.len() && at[i] == f;
        assert(a[i + 1] == f);
        assert(text_lt(a[0], a[i + 1]));
    }
    if a.contains(f) && f != a[0] {
        let i = choose|i: int| 0 <= i < a.len() && a[i] == f;
        assert(at[i - 1] == f);
    }
}

/// The boots of a log query's answer: streams of one log file are one boot, each boot
/// is cut to its last `max_lines` lines, and the newest `max_boots` boots come back,
/// the newest first.
pub fn boots_from_loki(streams: Vec<LokiStream>, max_boots: usize, max_lines: usize) -> (r: Vec<
    Boot,
>)
    ensures
        r.deep_view() == history_of(streams.deep_view(), max_boots as nat, max_lines as nat),
{
    let ghost read = streams.deep_view();
    let groups = group(streams);
    let ghost files = names(groups@);
    let mut boots: Vec<Boot> = Vec::new();
    assert(boots.deep_view() =~= boots_of(read, files.take(0), max_lines as nat));
    for acc in it: groups
        invariant
            it.seq() == groups@,
            grouped(read, groups@),
            files == names(groups@),
            boots.deep_view() == boots_of(read, files.take(it.index()), max_lines as nat),
    {
        let ghost before = boots.deep_view();
        let ghost k = it.index();
        proof {
            assert(acc == groups@[k]);
            assert(files.take(k + 1).drop_last() =~= files.take(k));
            assert(files.take(k + 1).last() == acc.filename@);
        }
        if let Some(boot) = finish_boot(acc, max_lines) {
            boots.push(boot);
            assert(boots.deep_view() =~= before.push(boot.deep_view()));
        }
    }
    proof {
        assert(files.take(files.len() as int) =~= files);
        assert(is_listing(read, files));
        lemma_listing_unique(read, files_of(read), files);
    }
    let mut boots = order::stable_sort(boots);
    let ghost all = boots.deep_view();
    if boots.len() > max_boots {
        boots.truncate(max_boots);
        assert(boots.deep_view() =~= all.take(max_boots as int));
    }
    boots
}

// --- Laws ---

/// Two boots of one pod with different restart counts have different ids.
pub proof fn lemma_boot_id_tells_restarts_apart(pod: Seq<char>, a: Seq<char>, b: Seq<char>)
    requires
        restart_count(a) is Some,
        restart_count(b) is Some,
        restart_count(a) != restart_count(b),
    ensures
        boot_id_text(pod, a) != boot_id_text(pod, b),
{
    let prefix = pod + "#"@;
    let x = restart_count(a)->0;
    let y = restart_count(b)->0;
    if prefix + x == prefix + y {
        assert((prefix + x).skip(prefix.len() as int) =~= x);
        assert((prefix + y).skip(prefix.len() as int) =~= y);
    }
}

/// The log files of the streams have a listing, and `files_of` is it.
pub proof fn lemma_files_of(streams: Seq<LokiStreamView>)
    ensures
        is_listing(streams, files_of(streams)),
    decreases streams.len(),
{
    if streams.len() == 0 {
        assert(is_listing(streams, Seq::<Seq<char>>::empty()));
    } else {
        let before = streams.drop_last();
        let s = streams.last();
        lemma_files_of(before);
        let files = files_of(before);
        let p = listing_place(files, s.filename);
        lemma_listing_place(files, s.filename);
        lemma_listing_insert(before, files, p, s);
        assert(before.push(s) =~= streams);
        if p < files.len() && files[p] == s.filename {
            assert(is_listing(streams, files));
        } else {
            assert(is_listing(streams, files.insert(p, s.filename)));
        }
    }
}

spec fn listing_place(files: Seq<Seq<char>>, name: Seq<char>) -> int
    decreases files.len(),
{
    if files.len() == 0 || text_lt(files.last(), name) {
        files.len() as int
    } else {
        listing_place(files.drop_last(), name)
    }
}

proof fn lemma_listing_place(files: Seq<Seq<char>>, name: Seq<char>)
    requires
        forall|i: int, j: int|
            0 <= i < j < files.len() ==> text_lt(#[trigger] files[i], #[trigger] files[j]),
    ensures
        0 <= listing_place(files, name) <= files.len(),
        forall|i: int| 0 <= i < listing_place(files, name) ==> text_lt(#[trigger] files[i], name),
        forall|i: int|
            listing_place(files, name) <= i < files.len() ==> !text_lt(#[trigger] files[i], name),
    decreases files.len(),
{
    if files.len() > 0 {
        let last = files.last();
        if text_lt(last, name) {
            assert forall|i: int| 0 <= i < files.len() implies text_lt(
                #[trigger] files[i],
                name,
            ) by {
                if i < files.len() - 1 {
                    assert(text_lt(files[i], files[files.len() - 1]));
                    text::lemma_text_le_transitive(files[i], last, name);
                    text::lemma_text_le_total(files[i], last);
                }
            }
        } else {
            let front = files.drop_last();
            assert forall|i: int, j: int| 0 <= i < j < front.len() implies text_lt(
                #[trigger] front[i],
                #[trigger] front[j],
            ) by {
                assert(text_lt(files[i], files[j]));
            }
            lemma_listing_place(front, name);
            assert forall|i: int| 0 <= i < listing_place(files, name) implies text_lt(
                #[trigger] files[i],
                name,
            ) by {
                assert(front[i] == files[i]);
            }
            assert forall|i: int|
                listing_place(files, name) <= i < files.len() implies !text_lt(
                #[trigger] files[i],
                name,
            ) by {
                if i < front.len() {
                    assert(front[i] == files[i]);
                }
            }
        }
    }
}

proof fn lemma_boots_of_member(
    streams: Seq<LokiStreamView>,
    files: Seq<Seq<char>>,
    max_lines: nat,
    boot: BootView,
)
    ensures
        boots_of(streams, files, max_lines).contains(boot) <==> exists|f: Seq<char>|
            #[trigger] files.contains(f) && file_boot(streams, f, max_lines) == Some(boot),
    decreases files.len(),
{
    if files.len() > 0 {
        let front = files.drop_last();
        let rest = boots_of(streams, front, max_lines);
        let all = boots_of(streams, files, max_lines);
        lemma_boots_of_member(streams, front, max_lines, boot);
        assert(files =~= front.push(files.last()));
        assert(files[files.len() - 1] == files.last());
        if all.contains(boot) {
            let i = choose|i: int| 0 <= i < all.len() && all[i] == boot;
            if i < rest.len() {
                assert(rest[i] == boot);
                let f = choose|f: Seq<char>|
                    #[trigger] front.contains(f) && file_boot(streams, f, max_lines) == Some(boot);
                let k = choose|k: int| 0 <= k < front.len() && front[k] == f;
                assert(files[k] == f);
                assert(files.contains(f));
            } else {
                assert(files.contains(files.last()));
            }
        }
        if exists|f: Seq<char>|
            #[trigger] files.contains(f) && file_boot(streams, f, max_lines) == Some(boot) {
            let f = choose|f: Seq<char>|
                #[trigger] files.contains(f) && file_boot(streams, f, max_lines) == Some(boot);
            let k = choose|k: int| 0 <= k < files.len() && files[k] == f;
            if k < front.len() {
                assert(front[k] == f);
                assert(front.contains(f));
                assert(rest.contains(boot));
                let i = choose|i: int| 0 <= i < rest.len() && rest[i] == boot;
                assert(all[i] == boot);
            } else {
                assert(all[all.len() - 1] == boot);
            }
        }
    } else {
        assert(!boots_of(streams, files, max_lines).contains(boot));
        assert(forall|f: Seq<char>| !files.contains(f));
    }
}

/// The history holds at most `max_boots` boots, and no boot ends after one that stands
/// before it.
pub proof fn lemma_history_newest_first(
    streams: Seq<LokiStreamView>,
    max_boots: nat,
    max_lines: nat,
)
    ensures
        history_of(streams, max_boots, max_lines).len() <= max_boots,
        forall|i: int, j: int|
            0 <= i <= j < history_of(streams, max_boots, max_lines).len() ==> (
            #[trigger] history_of(streams, max_boots, max_lines)[i]).end_ms >= (
            #[trigger] history_of(streams, max_boots, max_lines)[j]).end_ms,
{
    let unsorted = boots_of(streams, files_of(streams), max_lines);
    order::lemma_stable_sort_exists(unsorted);
    let all = order::stable_sorted(unsorted);
    let shown = history_of(streams, max_boots, max_lines);
    assert forall|i: int, j: int| 0 <= i <= j < shown.len() implies (#[trigger] shown[i]).end_ms
        >= (#[trigger] shown[j]).end_ms by {
        assert(shown[i] == all[i] && shown[j] == all[j]);
        assert(BootView::rank_le(all[i], all[j]));
    }
}

/// Every boot of the history is the boot of one of the log files; its lines are
/// between one and `max_lines`, they stand by ascending time, and they begin at
/// `start_ms` and end at `end_ms`.
pub proof fn lemma_history_boot(
    streams: Seq<LokiStreamView>,
    max_boots: nat,
    max_lines: nat,
    i: int,
)
    requires
        0 <= i < history_of(streams, max_boots, max_lines).len(),
    ensures
        ({
            let boot = history_of(streams, max_boots, max_lines)[i];
            &&& 0 < boot.lines.len() <= max_lines
            &&& boot.start_ms <= boot.end_ms
            &&& exists|f: Seq<char>, kept: Seq<EntryView>|
                {
                    &&& #[trigger] has_file(streams, f)
                    &&& boot.id == boot_id_text(boot.pod, f)
                    &&& boot.pod == file_pod(streams, f)
                    &&& #[trigger] order::is_sorted(kept)
                    &&& boot.lines == kept.map_values(|e: EntryView| e.line)
                    &&& boot.start_ms == kept.first().ts_ns / 1_000_000
                    &&& boot.end_ms == kept.last().ts_ns / 1_000_000
                    &&& forall|k: int|
                        0 <= k < kept.len() ==> file_entries(streams, f).contains(
                            #[trigger] kept[k],
                        )
                }
        }),
{
    let files = files_of(streams);
    let unsorted = boots_of(streams, files, max_lines);
    let shown = history_of(streams, max_boots, max_lines);
    let boot = shown[i];
    lemma_files_of(streams);
    order::lemma_stable_sort_multiset(unsorted);
    let all = order::stable_sorted(unsorted);
    assert(all[i] == boot);
    assert(all.contains(boot));
    broadcast use vstd::seq_lib::group_to_multiset_ensures;

    assert(all.to_multiset().contains(boot));
    assert(unsorted.contains(boot));
    lemma_boots_of_member(streams, files, max_lines, boot);
    let f = choose|f: Seq<char>|
        #[trigger] files.contains(f) && file_boot(streams, f, max_lines) == Some(boot);
    assert(has_file(streams, f));
    let entries = file_entries(streams, f);
    let sorted = order::stable_sorted(entries);
    order::lemma_stable_sort_exists(entries);
    order::lemma_stable_sort_multiset(entries);
    let kept = tail(sorted, max_lines);
    let off = sorted.len() - kept.len();
    assert forall|a: int, b: int| 0 <= a <= b < kept.len() implies EntryView::rank_le(
        #[trigger] kept[a],
        #[trigger] kept[b],
    ) by {
        assert(EntryView::rank_le(sorted[a + off], sorted[b + off]));
    }
    assert forall|k: int| 0 <= k < kept.len() implies entries.contains(#[trigger] kept[k]) by {
        assert(sorted[k + off] == kept[k]);
        assert(sorted.contains(kept[k]));
        assert(sorted.to_multiset().contains(kept[k]));
    }
    assert(EntryView::rank_le(kept[0], kept[kept.len() - 1]));
    assert(has_file(streams, f) && order::is_sorted(kept));
}

/// Where there is room for all boots, every log file that has a line, and a line may be
/// kept, gives a boot of the history.
pub proof fn lemma_history_complete(
    streams: Seq<LokiStreamView>,
    max_boots: nat,
    max_lines: nat,
    f: Seq<char>,
)
    requires
        files_of(streams).len() <= max_boots,
        max_lines > 0,
        file_entries(streams, f).len() > 0,
    ensures
        file_boot(streams, f, max_lines) is Some,
        history_of(streams, max_boots, max_lines).contains(
            file_boot(streams, f, max_lines)->0,
        ),
{
    broadcast use vstd::seq_lib::group_to_multiset_ensures;

    let files = files_of(streams);
    lemma_files_of(streams);
    if !has_file(streams, f) {
        lemma_file_absent(streams, f);
    }
    assert(files.contains(f));
    order::lemma_stable_sort_multiset(file_entries(streams, f));
    let boot = file_boot(streams, f, max_lines)->0;
    let unsorted = boots_of(streams, files, max_lines);
    lemma_boots_of_member(streams, files, max_lines, boot);
    assert(unsorted.contains(boot));
    order::lemma_stable_sort_multiset(unsorted);
    lemma_boots_of_len(streams, files, max_lines);
    assert(unsorted.to_multiset().contains(boot));
}

proof fn lemma_boots_of_len(streams: Seq<LokiStreamView>, files: Seq<Seq<char>>, max_lines: nat)
    ensures
        boots_of(streams, files, max_lines).len() <= files.len(),
    decreases files.len(),
{
    if files.len() > 0 {
        lemma_boots_of_len(streams, files.drop_last(), max_lines);
    }
}

/// To ask for fewer boots gives the first of the boots that more would have given.
pub proof fn lemma_fewer_boots(
    streams: Seq<LokiStreamView>,
    fewer: nat,
    more: nat,
    max_lines: nat,
)
    requires
        fewer <= more,
    ensures
        ({
            let all = history_of(streams, more, max_lines);
            history_of(streams, fewer, max_lines) == if all.len() > fewer {
                all.take(fewer as int)
            } else {
                all
            }
        }),
{
    let sorted = order::stable_sorted(boots_of(streams, files_of(streams), max_lines));
    if sorted.len() > more {
        assert(sorted.take(more as int).take(fewer as int) =~= sorted.take(fewer as int));
        assert(sorted.take(more as int).len() == more);
    }
}

/// `short` is the boot `long` with its last `n` lines only.
pub open spec fn is_shortened(n: nat, short: BootView, long: BootView) -> bool {
    &&& short.pod == long.pod
    &&& short.id == long.id
    &&& short.end_ms == long.end_ms
    &&& short.start_ms >= long.start_ms
    &&& short.lines == tail(long.lines, n)
}

proof fn lemma_file_boot_shortened(
    streams: Seq<LokiStreamView>,
    f: Seq<char>,
    fewer: nat,
    more: nat,
)
    requires
        0 < fewer <= more,
    ensures
        match (file_boot(streams, f, fewer), file_boot(streams, f, more)) {
            (Some(short), Some(long)) => is_shortened(fewer, short, long),
            (None, None) => true,
            _ => false,
        },
{
    let entries = file_entries(streams, f);
    order::lemma_stable_sort_exists(entries);
    let sorted = order::stable_sorted(entries);
    let short = tail(sorted, fewer);
    let long = tail(sorted, more);
    if sorted.len() > 0 {
        let line = |e: EntryView| e.line;
        assert(short =~= tail(long, fewer));
        assert(short.last() == sorted.last() && long.last() == sorted.last());
        assert(short.map_values(line) =~= tail(long.map_values(line), fewer));
        let i = sorted.len() - short.len();
        let j = sorted.len() - long.len();
        assert(short.first() == sorted[i] && long.first() == sorted[j]);
        assert(EntryView::rank_le(sorted[j], sorted[i]));
        assert(long.first().ts_ns / 1_000_000 <= short.first().ts_ns / 1_000_000);
    }
}

proof fn lemma_boots_of_shortened(
    streams: Seq<LokiStreamView>,
    files: Seq<Seq<char>>,
    fewer: nat,
    more: nat,
)
    requires
        0 < fewer <= more,
    ensures
        order::related_by_place(
            |short: BootView, long: BootView| is_shortened(fewer, short, long),
            boots_of(streams, files, fewer),
            boots_of(streams, files, more),
        ),
    decreases files.len(),
{
    if files.len() > 0 {
        let front = files.drop_last();
        lemma_boots_of_shortened(streams, front, fewer, more);
        lemma_file_boot_shortened(streams, files.last(), fewer, more);
        let s = boots_of(streams, files, fewer);
        let t = boots_of(streams, files, more);
        let sf = boots_of(streams, front, fewer);
        let tf = boots_of(streams, front, more);
        assert forall|i: int| 0 <= i < s.len() implies is_shortened(
            fewer,
            #[trigger] s[i],
            t[i],
        ) by {
            if i < sf.len() {
                assert(s[i] == sf[i] && t[i] == tf[i]);
                let related = |short: BootView, long: BootView| is_shortened(fewer, short, long);
                assert(related(sf[i], tf[i]));
            }
        }
    }
}

/// To ask for fewer lines, but at least one, gives the same boots in the same order,
/// each with the last of the lines that more would have given.
pub proof fn lemma_fewer_lines(
    streams: Seq<LokiStreamView>,
    max_boots: nat,
    fewer: nat,
    more: nat,
)
    requires
        0 < fewer <= more,
    ensures
        history_of(streams, max_boots, fewer).len() == history_of(streams, max_boots, more).len(),
        forall|i: int|
            0 <= i < history_of(streams, max_boots, fewer).len() ==> is_shortened(
                fewer,
                #[trigger] history_of(streams, max_boots, fewer)[i],
                history_of(streams, max_boots, more)[i],
            ),
{
    let related = |short: BootView, long: BootView| is_shortened(fewer, short, long);
    let files = files_of(streams);
    let s = boots_of(streams, files, fewer);
    let t = boots_of(streams, files, more);
    lemma_boots_of_shortened(streams, files, fewer, more);
    assert(order::keeps_ranks(related));
    order::lemma_stable_sort_by_rank(related, s, t);
    let short = history_of(streams, max_boots, fewer);
    let long = history_of(streams, max_boots, more);
    assert forall|i: int| 0 <= i < short.len() implies is_shortened(
        fewer,
        #[trigger] short[i],
        long[i],
    ) by {
        assert(related(order::stable_sorted(s)[i], order::stable_sorted(t)[i]));
    }
}

proof fn lemma_entries_of_add(a: Seq<Seq<Option<Seq<char>>>>, b: Seq<Seq<Option<Seq<char>>>>)
    ensures
        entries_of(a + b) == entries_of(a) + entries_of(b),
    decreases b.len(),
{
    if b.len() == 0 {
        assert(a + b =~= a);
        assert(entries_of(a) + entries_of(b) =~= entries_of(a));
    } else {
        lemma_entries_of_add(a, b.drop_last());
        assert((a + b).drop_last() =~= a + b.drop_last());
        assert((a + b).last() == b.last());
        assert(entries_of(a + b) =~= entries_of(a) + entries_of(b));
    }
}

proof fn lemma_file_add(a: Seq<LokiStreamView>, b: Seq<LokiStreamView>, f: Seq<char>)
    ensures
        file_entries(a + b, f) == file_entries(a, f) + file_entries(b, f),
        file_pod(a + b, f) == if file_pod(a, f).len() > 0 {
            file_pod(a, f)
        } else {
            file_pod(b, f)
        },
        has_file(a + b, f) <==> has_file(a, f) || has_file(b, f),
    decreases b.len(),
{
    if b.len() == 0 {
        assert(a + b =~= a);
        assert(file_entries(a, f) + file_entries(b, f) =~= file_entries(a, f));
        assert(file_pod(a, f).len() == 0 ==> file_pod(a, f) =~= file_pod(b, f));
    } else {
        lemma_file_add(a, b.drop_last(), f);
        assert((a + b).drop_last() =~= a + b.drop_last());
        assert((a + b).last() == b.last());
        assert(file_entries(a + b, f) =~= file_entries(a, f) + file_entries(b, f));
        assert((a + b) =~= (a + b.drop_last()).push(b.last()));
        assert(b =~= b.drop_last().push(b.last()));
        lemma_has_file_push(a + b.drop_last(), b.last(), f);
        lemma_has_file_push(b.drop_last(), b.last(), f);
    }
}

proof fn lemma_same_boots(
    a: Seq<LokiStreamView>,
    b: Seq<LokiStreamView>,
    files: Seq<Seq<char>>,
    max_lines: nat,
)
    requires
        forall|f: Seq<char>| #[trigger]
            file_entries(a, f) == file_entries(b, f) && file_pod(a, f) == file_pod(b, f),
    ensures
        boots_of(a, files, max_lines) == boots_of(b, files, max_lines),
    decreases files.len(),
{
    if files.len() > 0 {
        lemma_same_boots(a, b, files.drop_last(), max_lines);
        assert(file_entries(a, files.last()) == file_entries(b, files.last()));
    }
}

/// Streams of one log file are merged: to receive the values of a stream in two
/// streams of the same pod and log file, one right behind the other, changes nothing.
pub proof fn lemma_history_merges_streams(
    before: Seq<LokiStreamView>,
    first: LokiStreamView,
    second: LokiStreamView,
    after: Seq<LokiStreamView>,
    max_boots: nat,
    max_lines: nat,
)
    requires
        first.filename == second.filename,
        first.pod == second.pod,
    ensures
        history_of(before + seq![first, second] + after, max_boots, max_lines) == history_of(
            before + seq![
                LokiStreamView {
                    pod: first.pod,
                    filename: first.filename,
                    values: first.values + second.values,
                },
            ] + after,
            max_boots,
            max_lines,
        ),
{
    let whole = LokiStreamView {
        pod: first.pod,
        filename: first.filename,
        values: first.values + second.values,
    };
    let two = seq![first, second];
    let one = seq![whole];
    let a = before + two + after;
    let b = before + one + after;
    lemma_entries_of_add(first.values, second.values);
    assert forall|f: Seq<char>|
        #![trigger file_entries(a, f)]
        file_entries(a, f) == file_entries(b, f) && file_pod(a, f) == file_pod(b, f) && (has_file(
            a,
            f,
        ) <==> has_file(b, f)) by {
        let nothing = Seq::<LokiStreamView>::empty();
        assert(two.drop_last() =~= seq![first]);
        assert(two.last() == second);
        assert(seq![first].drop_last() =~= nothing);
        assert(seq![first].last() == first);
        assert(one.drop_last() =~= nothing);
        assert(one.last() == whole);
        assert(file_entries(nothing, f) =~= Seq::<EntryView>::empty());
        assert(file_pod(nothing, f) =~= Seq::<char>::empty());
        assert(file_entries(seq![first], f) =~= if first.filename == f {
            entries_of(first.values)
        } else {
            Seq::<EntryView>::empty()
        });
        assert(file_entries(two, f) =~= file_entries(one, f));
        assert(file_pod(seq![first], f) =~= if first.filename == f {
            first.pod
        } else {
            Seq::<char>::empty()
        });
        assert(file_pod(two, f) =~= file_pod(one, f));
        assert(has_file(two, f) <==> has_file(one, f)) by {
            assert(two[0].filename == one[0].filename);
            assert(two[1].filename == one[0].filename);
        }
        lemma_file_add(before, two, f);
        lemma_file_add(before, one, f);
        lemma_file_add(before + two, after, f);
        lemma_file_add(before + one, after, f);
    }
    lemma_files_of(a);
    lemma_files_of(b);
    assert(is_listing(a, files_of(b))) by {
        assert forall|f: Seq<char>| #[trigger] files_of(b).contains(f) <==> has_file(a, f) by {
            assert(file_entries(a, f) == file_entries(b, f));
        }
    }
    lemma_listing_unique(a, files_of(a), files_of(b));
    lemma_same_boots(a, b, files_of(a), max_lines);
}

}
