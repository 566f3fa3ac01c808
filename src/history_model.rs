//! The history model: an append-only log of updater runs, one
//! `<timestamp>,<pr>,<outcome>` line per run.
use vstd::prelude::*;
use crate::text::{chars_of, line_ranges, lines_of, pieces, push_char, push_text, split, split_pieces, string_of_all, sub_vec};

verus! {

/// The instant, in milliseconds since the Unix epoch, that an RFC 3339 text
/// names, as `chrono::DateTime::parse_from_rfc3339` reads it.
pub uninterp spec fn rfc3339_millis(s: Seq<char>) -> Option<i64>;

/// The RFC 3339 text, in UTC, of an instant given in milliseconds since the Unix
/// epoch, as `chrono::DateTime::to_rfc3339` writes it.
pub uninterp spec fn rfc3339_text(ms: i64) -> Option<Seq<char>>;

/// Relies on `chrono::DateTime::parse_from_rfc3339` and `DateTime::timestamp_millis`:
/// the instant an RFC 3339 text names.
#[verifier::external_body]
fn parse_rfc3339(s: &str) -> (r: Option<i64>)
    ensures
        r == rfc3339_millis(s@),
{
    chrono::DateTime::parse_from_rfc3339(s).ok().map(|d| d.timestamp_millis())
}

/// Relies on `chrono::DateTime::<Utc>::from_timestamp_millis` and
/// `DateTime::to_rfc3339`: the RFC 3339 text of an instant.
#[verifier::external_body]
fn format_rfc3339(ms: i64) -> (r: Option<String>)
    ensures
        match rfc3339_text(ms) {
            Some(t) => r is Some && r->0@ == t,
            None => r is None,
        },
{
    chrono::DateTime::<chrono::Utc>::from_timestamp_millis(ms).map(|d| d.to_rfc3339())
}

/// One run of the updater: when it ran (milliseconds since the Unix epoch), the
/// pull request it looked at, and its outcome.
#[derive(Debug, Clone)]
pub struct HistoryEntry {
    /// When the run happened, in milliseconds since the Unix epoch.
    pub timestamp_millis: i64,
    /// The pull request the run looked at.
    pub pr_number: String,
    /// `success` or `failure`.
    pub status: String,
}

/// A history entry as plain values.
pub type EntryView = (i64, Seq<char>, Seq<char>);

/// History entries as plain values.
pub open spec fn entries_view(v: Seq<HistoryEntry>) -> Seq<EntryView> {
    v.map_values(|e: HistoryEntry| (e.timestamp_millis, e.pr_number@, e.status@))
}

/// The entry that a line of the history file holds: its first three
/// comma-separated fields, the first an RFC 3339 instant.
pub open spec fn parse_entry(line: Seq<char>) -> Option<EntryView> {
    let f = split(line, ',');
    if f.len() < 3 {
        None
    } else {
        match rfc3339_millis(f[0]) {
            Some(ms) => Some((ms, f[1], f[2])),
            None => None,
        }
    }
}

/// The entries of the lines `ls`, when every line holds one.
pub open spec fn parse_entries(ls: Seq<Seq<char>>) -> Option<Seq<EntryView>>
    decreases ls.len(),
{
    if ls.len() == 0 {
        Some(seq![])
    } else {
        match (parse_entries(ls.drop_last()), parse_entry(ls.last())) {
            (Some(es), Some(e)) => Some(es.push(e)),
            _ => None,
        }
    }
}

/// The entries of a history file, when every line holds one.
pub open spec fn spec_load_history(text: Seq<char>) -> Option<Seq<EntryView>> {
    parse_entries(lines_of(text))
}

/// The pull requests that the entries name.
pub open spec fn pr_set(es: Seq<EntryView>) -> Set<Seq<char>> {
    Set::new(|p: Seq<char>| exists|i: int| 0 <= i < es.len() && (#[trigger] es[i]).1 == p)
}

/// The line that records an entry, when its instant can be written.
pub open spec fn entry_line(ms: i64, pr: Seq<char>, status: Seq<char>) -> Option<Seq<char>> {
    match rfc3339_text(ms) {
        Some(t) => Some(t + seq![','] + pr + seq![','] + status + seq!['\n']),
        None => None,
    }
}

/// A history file that does not hold the expected entries.
#[derive(Debug)]
pub struct HistoryModelError {
    message: String,
}

impl HistoryModelError {
    /// The message of this error.
    pub closed spec fn message_spec(&self) -> Seq<char> {
        self.message@
    }

    /// An error with `message`.
    pub fn from(message: &str) -> (r: HistoryModelError)
        ensures
            r.message_spec() == message@,
    {
        HistoryModelError { message: message.to_owned() }
    }

    /// The message of this error.
    pub fn message(&self) -> (r: &str)
        ensures
            r@ == self.message_spec(),
    {
        self.message.as_str()
    }
}

/// The entry on one line of the history file.
fn load_entry(line: &Vec<char>) -> (r: Result<HistoryEntry, HistoryModelError>)
    ensures
        match parse_entry(line@) {
            Some(e) => r is Ok && (r->Ok_0.timestamp_millis, r->Ok_0.pr_number@, r->Ok_0.status@)
                == e,
            None => r is Err,
        },
{
    let fields = split_pieces(line, ',');
    if fields.len() < 2 {
        return Err(HistoryModelError::from("Incorrect history file format. Missing pr number in entry."));
    }
    if fields.len() < 3 {
        return Err(HistoryModelError::from("Incorrect history file format. Missing status in entry."));
    }
    let date = string_of_all(&fields[0]);
    let ms = match parse_rfc3339(date.as_str()) {
        Some(ms) => ms,
        None => {
            return Err(HistoryModelError::from("Incorrect history file format."));
        },
    };
    Ok(HistoryEntry { timestamp_millis: ms, pr_number: string_of_all(&fields[1]), status: string_of_all(&fields[2]) })
}

/// The entries of a history file's text.
fn load_history(text: &str) -> (r: Result<Vec<HistoryEntry>, HistoryModelError>)
    ensures
        match spec_load_history(text@) {
            Some(es) => r is Ok && entries_view(r->Ok_0@) == es,
            None => r is Err,
        },
{
    let chars = chars_of(text);
    let ranges = line_ranges(&chars);
    let ghost ls = lines_of(text@);
    let mut entries: Vec<HistoryEntry> = Vec::new();
    let mut i: usize = 0;
    assert(ls.take(0) =~= seq![]);
    while i < ranges.len()
        invariant
            i <= ranges.len(),
            chars@ == text@,
            crate::text::ranges_within(ranges@, chars.len() as int),
            pieces(chars@, ranges@) == ls,
            ls == lines_of(text@),
            parse_entries(ls.take(i as int)) == Some(entries_view(entries@)),
        decreases ranges.len() - i,
    {
        let (lo, hi) = ranges[i];
        let line = sub_vec(&chars, lo, hi);
        assert(line@ == ls[i as int]);
        assert(ls.take(i + 1).drop_last() =~= ls.take(i as int));
        assert(ls.take(i + 1).last() == ls[i as int]);
        match load_entry(&line) {
            Ok(e) => {
                let ghost before = entries@;
                entries.push(e);
                assert(entries_view(entries@) =~= entries_view(before).push(
                    (e.timestamp_millis, e.pr_number@, e.status@),
                ));
            },
            Err(err) => {
                proof {
                    lemma_parse_entries_fails(ls, i as int);
                }
                return Err(err);
            },
        }
        i += 1;
    }
    assert(ls.take(i as int) =~= ls);
    Ok(entries)
}

/// A line that holds no entry makes the whole file fail.
proof fn lemma_parse_entries_fails(ls: Seq<Seq<char>>, i: int)
    requires
        0 <= i < ls.len(),
        parse_entry(ls[i]) is None,
    ensures
        parse_entries(ls) is None,
    decreases ls.len(),
{
    if i < ls.len() - 1 {
        lemma_parse_entries_fails(ls.drop_last(), i);
    }
}

/// Recording an entry adds its pull request to those already recorded.
pub proof fn lemma_pr_ids_after_append(es: Seq<EntryView>, e: EntryView)
    ensures
        pr_set(es.push(e)) == pr_set(es).insert(e.1),
{
    assert forall|p: Seq<char>| pr_set(es.push(e)).contains(p) <==> pr_set(es).insert(e.1).contains(p) by {
        if pr_set(es.push(e)).contains(p) {
            let i = choose|i: int| 0 <= i < es.push(e).len() && (#[trigger] es.push(e)[i]).1 == p;
            if i < es.len() {
                assert(es[i].1 == p);
            }
        }
        if pr_set(es).contains(p) {
            let i = choose|i: int| 0 <= i < es.len() && (#[trigger] es[i]).1 == p;
            assert(es.push(e)[i].1 == p);
        }
        if p == e.1 {
            assert(es.push(e)[es.len() as int].1 == p);
        }
    }
    assert(pr_set(es.push(e)) =~= pr_set(es).insert(e.1));
}

/// The log of updater runs, backed by a file.
pub struct HistoryModel {
    history_file: String,
    history_entries: Vec<HistoryEntry>,
}

impl View for HistoryModel {
    type V = Seq<EntryView>;

    closed spec fn view(&self) -> Seq<EntryView> {
        entries_view(self.history_entries@)
    }
}

impl HistoryModel {
    /// The path of the file behind this model.
    pub closed spec fn file_spec(&self) -> Seq<char> {
        self.history_file@
    }

    /// A model of the file at `path`, whose text is `file_contents`; fails when a
    /// line does not hold an entry.
    pub fn new(path: &str, file_contents: &str) -> (r: Result<HistoryModel, HistoryModelError>)
        ensures
            match spec_load_history(file_contents@) {
                Some(es) => r is Ok && r->Ok_0@ == es && r->Ok_0.file_spec() == path@,
                None => r is Err,
            },
    {
        match load_history(file_contents) {
            Ok(entries) => Ok(HistoryModel { history_file: path.to_owned(), history_entries: entries }),
            Err(e) => Err(e),
        }
    }

    /// A model of the given entries, with no file behind it.
    pub fn from(history_entries: Vec<HistoryEntry>) -> (r: HistoryModel)
        ensures
            r@ == entries_view(history_entries@),
    {
        HistoryModel { history_file: String::new(), history_entries }
    }

    /// The path of the file behind this model.
    pub fn history_file(&self) -> (r: &str)
        ensures
            r@ == self.file_spec(),
    {
        self.history_file.as_str()
    }

    /// The entries, in the order recorded.
    pub fn history_entries(&self) -> (r: &Vec<HistoryEntry>)
        ensures
            entries_view(r@) == self@,
    {
        &self.history_entries
    }

    /// The pull requests of the entries, in the order recorded.
    pub fn pr_numbers(&self) -> (r: Vec<String>)
        ensures
            r@.len() == self@.len(),
            forall|i: int| 0 <= i < r@.len() ==> (#[trigger] r@[i])@ == self@[i].1,
            Set::new(|p: Seq<char>| exists|i: int| 0 <= i < r@.len() && (#[trigger] r@[i])@ == p)
                == pr_set(self@),
    {
        let mut r: Vec<String> = Vec::new();
        let mut i: usize = 0;
        while i < self.history_entries.len()
            invariant
                i <= self.history_entries.len(),
                r@.len() == i,
                forall|k: int| 0 <= k < i ==> (#[trigger] r@[k])@ == self@[k].1,
            decreases self.history_entries.len() - i,
        {
            r.push(self.history_entries[i].pr_number.clone());
            i += 1;
        }
        assert(Set::new(|p: Seq<char>| exists|i: int| 0 <= i < r@.len() && (#[trigger] r@[i])@ == p)
            =~= pr_set(self@)) by {
            assert forall|p: Seq<char>|
                pr_set(self@).contains(p) implies (exists|i: int|
                0 <= i < r@.len() && (#[trigger] r@[i])@ == p) by {
                let i = choose|i: int| 0 <= i < self@.len() && (#[trigger] self@[i]).1 == p;
                assert(r@[i]@ == p);
            }
        }
        r
    }

    /// The last entry recorded, if any.
    pub fn latest_entry(&self) -> (r: Option<HistoryEntry>)
        ensures
            self@.len() == 0 ==> r is None,
            self@.len() > 0 ==> r is Some && (r->0.timestamp_millis, r->0.pr_number@, r->0.status@)
                == self@.last(),
    {
        let n = self.history_entries.len();
        if n == 0 {
            None
        } else {
            let e = &self.history_entries[n - 1];
            Some(HistoryEntry { timestamp_millis: e.timestamp_millis, pr_number: e.pr_number.clone(), status: e.status.clone() })
        }
    }

    /// Records an entry: adds it to the model and gives the line to append to the
    /// file. Fails, changing nothing, when the instant cannot be written.
    pub fn update_history_file(&mut self, timestamp_millis: i64, pr_number: &str, status: &str) -> (r: Result<String, HistoryModelError>)
        ensures
            match entry_line(timestamp_millis, pr_number@, status@) {
                Some(l) => r is Ok && r->Ok_0@ == l && final(self)@ == old(self)@.push(
                    (timestamp_millis, pr_number@, status@),
                ),
                None => r is Err && final(self)@ == old(self)@,
            },
            final(self).file_spec() == old(self).file_spec(),
    {
        let stamp = match format_rfc3339(timestamp_millis) {
            Some(t) => t,
            None => {
                return Err(HistoryModelError::from("The entry's time cannot be written."));
            },
        };
        let mut line = stamp;
        push_char(&mut line, ',');
        push_text(&mut line, pr_number);
        push_char(&mut line, ',');
        push_text(&mut line, status);
        push_char(&mut line, '\n');
        let ghost before = self.history_entries@;
        self.history_entries.push(HistoryEntry { timestamp_millis, pr_number: pr_number.to_owned(), status: status.to_owned() });
        assert(entries_view(self.history_entries@) =~= entries_view(before).push(
            (timestamp_millis, pr_number@, status@),
        ));
        Ok(line)
    }

    /// Replaces the entries with those of the file's new text; fails, changing
    /// nothing, when a line does not hold an entry.
    pub fn reload(&mut self, file_contents: &str) -> (r: Result<(), HistoryModelError>)
        ensures
            match spec_load_history(file_contents@) {
                Some(es) => r is Ok && final(self)@ == es,
                None => r is Err && final(self)@ == old(self)@,
            },
            final(self).file_spec() == old(self).file_spec(),
    {
        match load_history(file_contents) {
            Ok(entries) => {
                self.history_entries = entries;
                Ok(())
            },
            Err(e) => Err(e),
        }
    }
}

} // verus!
