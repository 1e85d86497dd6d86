//! The hash list: which hash the file of each name had when it was last
//! fetched, and the text file that keeps the list between runs.

use crate::error::TaError;
use crate::hash::{hash_of_text, Sha256Hash};
use crate::hex::{hex_encode, lemma_hex_decode_encode, lemma_hex_digit_reads_back};
use crate::text::{
    chars_of, find_char, first_index, lemma_first_index, lemma_first_index_is, push_char,
    string_of,
};
use vstd::prelude::*;
use vstd::slice::slice_subrange;
use vstd::string::StringExecFns;

verus! {

/// A name with the bytes of its hash.
pub type Entry = (Seq<char>, Seq<u8>);

/// The mapping that a sequence of entries stands for: each name is mapped to
/// the hash of the last entry that has it.
pub open spec fn ledger_of(entries: Seq<Entry>) -> Map<Seq<char>, Seq<u8>>
    decreases entries.len(),
{
    if entries.len() == 0 {
        Map::empty()
    } else {
        ledger_of(entries.drop_last()).insert(entries.last().0, entries.last().1)
    }
}

/// No two entries have the same name.
pub open spec fn names_differ(entries: Seq<Entry>) -> bool {
    forall|i: int, j: int| 0 <= i < j < entries.len() ==> entries[i].0 != entries[j].0
}

/// What the mapping of a sequence of entries holds: the names of the entries,
/// each with the hash of one of its entries, and, where the names differ from
/// each other, each entry's own hash.
pub proof fn lemma_ledger_of(entries: Seq<Entry>)
    ensures
        forall|name: Seq<char>|
            ledger_of(entries).contains_key(name) <==> exists|i: int|
                0 <= i < entries.len() && (#[trigger] entries[i]).0 == name,
        forall|name: Seq<char>| #[trigger]
            ledger_of(entries).contains_key(name) ==> exists|i: int|
                0 <= i < entries.len() && (#[trigger] entries[i]) == (
                    name,
                    ledger_of(entries)[name],
                ),
        names_differ(entries) ==> forall|i: int|
            0 <= i < entries.len() ==> ledger_of(entries)[(#[trigger] entries[i]).0]
                == entries[i].1,
    decreases entries.len(),
{
    if entries.len() > 0 {
        let front = entries.drop_last();
        let last = entries.last();
        lemma_ledger_of(front);
        assert forall|name: Seq<char>| #[trigger]
            ledger_of(entries).contains_key(name) implies exists|i: int|
            0 <= i < entries.len() && (#[trigger] entries[i]) == (
                name,
                ledger_of(entries)[name],
            ) by {
            if name != last.0 {
                let i = choose|i: int|
                    0 <= i < front.len() && (#[trigger] front[i]) == (
                        name,
                        ledger_of(front)[name],
                    );
                assert(entries[i] == front[i]);
            }
        }
        assert forall|name: Seq<char>|
            ledger_of(entries).contains_key(name) <==> exists|i: int|
                0 <= i < entries.len() && (#[trigger] entries[i]).0 == name by {
            if ledger_of(entries).contains_key(name) && name != last.0 {
                let i = choose|i: int| 0 <= i < front.len() && (#[trigger] front[i]).0 == name;
                assert(entries[i] == front[i]);
            }
            if exists|i: int| 0 <= i < entries.len() && (#[trigger] entries[i]).0 == name {
                let i = choose|i: int| 0 <= i < entries.len() && (#[trigger] entries[i]).0 == name;
                if i < front.len() {
                    assert(front[i] == entries[i]);
                }
            }
        }
        if names_differ(entries) {
            assert forall|i: int| 0 <= i < entries.len() implies ledger_of(entries)[(
            #[trigger] entries[i]).0] == entries[i].1 by {
                if i < front.len() {
                    assert(front[i] == entries[i]);
                    assert(ledger_of(front)[front[i].0] == front[i].1);
                }
            }
        }
    }
}

/// What a line of the file says.
pub enum Line {
    /// Nothing: the line is a comment, or has no space in it.
    Nothing,
    /// That the file of this name has the hash of these bytes.
    Entry(Seq<char>, Seq<u8>),
    /// The line has a space, and what stands before the first one is no hash.
    Malformed,
}

/// What `line` says.
///
/// A line that starts with `#` is a comment. Any other line falls into the
/// parts between its spaces; with one part only it says nothing. Otherwise
/// the first part has to be the text form of a hash, and the second part,
/// which ends at the next space or with the line, is the name.
pub open spec fn line_of(line: Seq<char>) -> Line {
    let gap = first_index(line, ' ');
    let rest = line.skip(gap + 1);
    if line.len() > 0 && line[0] == '#' {
        Line::Nothing
    } else if gap >= line.len() {
        Line::Nothing
    } else {
        match hash_of_text(line.take(gap)) {
            Some(hash) => Line::Entry(rest.take(first_index(rest, ' ')), hash),
            None => Line::Malformed,
        }
    }
}

/// `line` without the carriage return that it ends with, if it ends with
/// one.
pub open spec fn without_cr(line: Seq<char>) -> Seq<char> {
    if line.len() > 0 && line.last() == '\r' {
        line.drop_last()
    } else {
        line
    }
}

/// The first line of `text`. A line ends before the first line feed, and
/// before a carriage return that stands directly in front of it; where
/// `text` has no line feed the line is all of it.
pub open spec fn first_line(text: Seq<char>) -> Seq<char> {
    let end = first_index(text, '\n');
    if 0 <= end < text.len() {
        without_cr(text.take(end))
    } else {
        text
    }
}

/// What follows the first line of `text` and the line feed that ends it.
pub open spec fn after_first_line(text: Seq<char>) -> Seq<char> {
    let end = first_index(text, '\n');
    if 0 <= end < text.len() {
        text.skip(end + 1)
    } else {
        Seq::empty()
    }
}

/// The ledger that comes of reading the lines of `text` into `ledger`, one
/// after the other: each entry is put in, in place of an earlier one of the
/// same name. `None` if one of the lines is malformed.
pub open spec fn read_into(ledger: Map<Seq<char>, Seq<u8>>, text: Seq<char>) -> Option<
    Map<Seq<char>, Seq<u8>>,
>
    decreases text.len(),
{
    if text.len() == 0 {
        Some(ledger)
    } else {
        match line_of(first_line(text)) {
            Line::Malformed => None,
            Line::Nothing => read_into(ledger, after_first_line(text)),
            Line::Entry(name, hash) => read_into(
                ledger.insert(name, hash),
                after_first_line(text),
            ),
        }
    }
}

/// The ledger that the file with the content `text` holds, if the file is
/// well formed.
pub open spec fn read_ledger(text: Seq<char>) -> Option<Map<Seq<char>, Seq<u8>>> {
    read_into(Map::empty(), text)
}

/// The ledger that a directory holds, where `content` is the text of its
/// hash list file, if there is such a file.
pub open spec fn stored_ledger(content: Option<&str>) -> Option<Map<Seq<char>, Seq<u8>>> {
    match content {
        Some(text) => read_ledger(text@),
        None => Some(Map::empty()),
    }
}

/// The line that is written for an entry: the hash in hexadecimal, a space,
/// the name, and a line feed.
pub open spec fn entry_line(entry: Entry) -> Seq<char> {
    hex_encode(entry.1) + seq![' '] + entry.0 + seq!['\n']
}

/// The text that is written for a sequence of entries: their lines, in
/// order.
pub open spec fn written(entries: Seq<Entry>) -> Seq<char>
    decreases entries.len(),
{
    if entries.len() == 0 {
        Seq::empty()
    } else {
        written(entries.drop_last()) + entry_line(entries.last())
    }
}

/// The list of the hashes that the files of a directory had when they were
/// last fetched, by file name.
///
/// Its view is the mapping from name to the thirty-two bytes of the hash. A
/// name that the mapping lacks has no known copy.
pub struct HashList {
    entries: Vec<(String, Sha256Hash)>,
}

impl View for HashList {
    type V = Map<Seq<char>, Seq<u8>>;

    open spec fn view(&self) -> Map<Seq<char>, Seq<u8>> {
        ledger_of(self.entries())
    }
}

impl HashList {
    #[verifier::type_invariant]
    spec fn well_formed(self) -> bool {
        names_differ(self.entries())
    }

    /// The entries of the list, each name once, in the order in which they
    /// are written out.
    pub closed spec fn entries(&self) -> Seq<Entry> {
        self.entries@.map_values(|e: (String, Sha256Hash)| (e.0@, e.1@))
    }

    /// The empty list.
    pub fn new() -> (list: Self)
        ensures
            list@ == Map::<Seq<char>, Seq<u8>>::empty(),
            list.entries() == Seq::<Entry>::empty(),
    {
        HashList { entries: Vec::new() }
    }

    /// Reads what `line` says: the name and hash of an entry, or nothing.
    fn read_line(line: &[char]) -> (r: Result<Option<(String, Sha256Hash)>, TaError>)
        ensures
            match r {
                Ok(Some(entry)) => line_of(line@) == Line::Entry(entry.0@, entry.1@),
                Ok(None) => line_of(line@) == Line::Nothing,
                Err(e) => line_of(line@) == Line::Malformed && e matches TaError::BadHashFormat,
            },
    {
        let len = line.len();
        if len > 0 && line[0] == '#' {
            return Ok(None);
        }
        let gap = find_char(line, ' ', 0, len);
        assert(line@.subrange(0, len as int) =~= line@);
        if gap == len {
            return Ok(None);
        }
        let hash = match Sha256Hash::from_chars(slice_subrange(line, 0, gap)) {
            Some(hash) => hash,
            None => {
                return Err(TaError::BadHashFormat);
            },
        };
        let name_end = find_char(line, ' ', gap + 1, len);
        let name = string_of(slice_subrange(line, gap + 1, name_end));
        proof {
            let rest = line@.skip(gap + 1);
            assert(name@ =~= rest.take(first_index(rest, ' ')));
        }
        Ok(Some((name, hash)))
    }

    /// Reads the list from the text of its file.
    ///
    /// Each line of the text is the hexadecimal form of a hash, a space, and
    /// a name; a line ends with a line feed, or a carriage return and a line
    /// feed, and the last line may do without. Lines that start with `#` and
    /// lines without a space are passed over. A later entry for a name
    /// replaces an earlier one. The text is refused as a whole if, in a line
    /// with a space, what stands before the first space is not sixty-four
    /// hexadecimal digits.
    pub fn from_reader(text: &str) -> (r: Result<Self, TaError>)
        ensures
            match r {
                Ok(list) => read_ledger(text@) == Some(list@),
                Err(e) => read_ledger(text@) is None && e matches TaError::BadHashFormat,
            },
    {
        let chars = chars_of(text);
        let all = chars.as_slice();
        let len = all.len();
        let mut list = HashList::new();
        let mut pos: usize = 0;
        assert(all@.skip(0) =~= all@);
        while pos < len
            invariant
                pos <= len == all@.len(),
                all@ == text@,
                read_ledger(text@) == read_into(list@, all@.skip(pos as int)),
            decreases len - pos,
        {
            let ghost tail = all@.skip(pos as int);
            let end = find_char(all, '\n', pos, len);
            let stop = if end < len && end > pos && all[end - 1] == '\r' {
                end - 1
            } else {
                end
            };
            let next = if end < len {
                end + 1
            } else {
                len
            };
            proof {
                assert(all@.subrange(pos as int, len as int) =~= tail);
                assert(first_line(tail) =~= all@.subrange(pos as int, stop as int));
                assert(after_first_line(tail) =~= all@.skip(next as int));
            }
            match Self::read_line(slice_subrange(all, pos, stop)) {
                Ok(Some(entry)) => {
                    list.add_entry(entry.0.as_str(), &entry.1);
                },
                Ok(None) => {},
                Err(e) => {
                    return Err(e);
                },
            }
            pos = next;
        }
        Ok(list)
    }

    /// The list that a directory has: `content` is the text of its hash list
    /// file, or `None` where the directory has no such file, which is no
    /// failure and gives the empty list.
    pub fn load(content: Option<&str>) -> (r: Result<Self, TaError>)
        ensures
            match r {
                Ok(list) => stored_ledger(content) == Some(list@),
                Err(e) => stored_ledger(content) is None && e matches TaError::BadHashFormat,
            },
    {
        match content {
            Some(text) => Self::from_reader(text),
            None => Ok(Self::new()),
        }
    }

    /// Writes the list to the end of `out`, as the text of its file: one
    /// line for each entry, made of the hash in hexadecimal, a space, the
    /// name, and a line feed.
    ///
    /// Where every name in the list is storable, the text that is written
    /// reads back as the same list.
    pub fn to_writer(&self, out: &mut String)
        ensures
            final(out)@ == old(out)@ + written(self.entries()),
            names_differ(self.entries()),
            (forall|name: Seq<char>| self@.contains_key(name) ==> is_storable_name(name))
                ==> read_ledger(written(self.entries())) == Some(self@),
    {
        proof {
            use_type_invariant(self);
            self.lemma_written_list_reads_back();
        }
        let mut i: usize = 0;
        while i < self.entries.len()
            invariant
                i <= self.entries@.len() == self.entries().len(),
                out@ == old(out)@ + written(self.entries().take(i as int)),
            decreases self.entries.len() - i,
        {
            let hex = self.entries[i].1.to_hex();
            out.append(hex.as_str());
            push_char(out, ' ');
            out.append(self.entries[i].0.as_str());
            push_char(out, '\n');
            i += 1;
            assert(self.entries().take(i as int).drop_last() =~= self.entries().take(i - 1));
        }
        assert(self.entries().take(i as int) =~= self.entries());
    }

    /// Every hash in the list has thirty-two bytes.
    pub proof fn lemma_hashes_are_whole(&self)
        ensures
            forall|name: Seq<char>| #[trigger]
                self@.contains_key(name) ==> self@[name].len() == 32,
    {
        let entries = self.entries();
        lemma_ledger_of(entries);
        assert forall|name: Seq<char>| #[trigger] self@.contains_key(name) implies self@[name].len()
            == 32 by {
            let i = choose|i: int|
                0 <= i < entries.len() && (#[trigger] entries[i]) == (name, self@[name]);
            self.entries@[i].1.lemma_len();
        }
    }

    /// The text written for a list whose names are all storable holds that
    /// list.
    proof fn lemma_written_list_reads_back(&self)
        ensures
            (forall|name: Seq<char>| self@.contains_key(name) ==> is_storable_name(name))
                ==> read_ledger(written(self.entries())) == Some(self@),
    {
        let entries = self.entries();
        if forall|name: Seq<char>| self@.contains_key(name) ==> is_storable_name(name) {
            lemma_ledger_of(entries);
            assert forall|i: int| 0 <= i < entries.len() implies is_storable_name(
                (#[trigger] entries[i]).0,
            ) && entries[i].1.len() == 32 by {
                self.entries@[i].1.lemma_len();
            }
            lemma_written_reads_back(entries);
        }
    }

    /// The place of `filename` among the entries, if it has one.
    fn position(&self, filename: &str) -> (at: Option<usize>)
        ensures
            match at {
                Some(i) => i < self.entries().len() && self.entries()[i as int].0 == filename@,
                None => forall|i: int|
                    0 <= i < self.entries().len() ==> (#[trigger] self.entries()[i]).0
                        != filename@,
            },
    {
        let wanted = filename.to_owned();
        let mut i: usize = 0;
        while i < self.entries.len()
            invariant
                i <= self.entries@.len(),
                wanted@ == filename@,
                forall|j: int| 0 <= j < i ==> (#[trigger] self.entries()[j]).0 != filename@,
            decreases self.entries.len() - i,
        {
            if self.entries[i].0 == wanted {
                return Some(i);
            }
            i += 1;
        }
        None
    }

    /// The hash recorded for `filename`, if there is one.
    pub fn get_hash<'a>(&'a self, filename: &str) -> (found: Option<&'a Sha256Hash>)
        ensures
            match found {
                Some(hash) => self@.contains_key(filename@) && self@[filename@] == hash@,
                None => !self@.contains_key(filename@),
            },
    {
        proof {
            use_type_invariant(self);
            lemma_ledger_of(self.entries());
        }
        match self.position(filename) {
            Some(i) => {
                Some(&self.entries[i].1)
            },
            None => None,
        }
    }

    /// Records `hash` for `filename`, in place of what was recorded for it
    /// before, if anything. Every other name keeps its hash.
    pub fn add_entry(&mut self, filename: &str, hash: &Sha256Hash)
        ensures
            final(self)@ == old(self)@.insert(filename@, hash@),
    {
        proof {
            use_type_invariant(&*self);
            lemma_ledger_of(self.entries());
        }
        let ghost before = self.entries();
        let entry = (filename.to_owned(), hash.clone());
        let at = self.position(filename);
        let mut entries: Vec<(String, Sha256Hash)> = Vec::new();
        core::mem::swap(&mut self.entries, &mut entries);
        match at {
            Some(i) => {
                entries.set(i, entry);
                proof {
                    lemma_entry_replaced(before, i as int, hash@);
                }
            },
            None => {
                entries.push(entry);
            },
        }
        let ghost after = entries@.map_values(|e: (String, Sha256Hash)| (e.0@, e.1@));
        proof {
            match at {
                Some(i) => {
                    assert(after =~= before.update(i as int, (filename@, hash@)));
                },
                None => {
                    assert(after =~= before.push((filename@, hash@)));
                    assert(after.drop_last() =~= before);
                },
            }
        }
        self.entries = entries;
    }
}

/// Giving the entry at `at` another hash changes the mapping at that entry's
/// name, and nowhere else.
proof fn lemma_entry_replaced(entries: Seq<Entry>, at: int, hash: Seq<u8>)
    requires
        names_differ(entries),
        0 <= at < entries.len(),
    ensures
        names_differ(entries.update(at, (entries[at].0, hash))),
        ledger_of(entries.update(at, (entries[at].0, hash))) == ledger_of(entries).insert(
            entries[at].0,
            hash,
        ),
{
    let name = entries[at].0;
    let after = entries.update(at, (name, hash));
    assert(names_differ(after)) by {
        assert forall|i: int, j: int| 0 <= i < j < after.len() implies after[i].0 != after[j].0 by {
            assert(entries[i].0 != entries[j].0);
        }
    }
    lemma_ledger_of(entries);
    lemma_ledger_of(after);
    let m1 = ledger_of(after);
    let m2 = ledger_of(entries).insert(name, hash);
    assert forall|k: Seq<char>| m1.contains_key(k) <==> m2.contains_key(k) by {
        if m1.contains_key(k) {
            let i = choose|i: int| 0 <= i < after.len() && (#[trigger] after[i]).0 == k;
            assert(entries[i].0 == k);
        }
        if m2.contains_key(k) && k != name {
            let i = choose|i: int| 0 <= i < entries.len() && (#[trigger] entries[i]).0 == k;
            assert(after[i].0 == k);
        }
        if k == name {
            assert(after[at].0 == k);
        }
    }
    assert forall|k: Seq<char>| m1.contains_key(k) implies m1[k] == m2[k] by {
        let i = choose|i: int| 0 <= i < after.len() && (#[trigger] after[i]).0 == k;
        assert(m1[after[i].0] == after[i].1);
        if i != at {
            assert(ledger_of(entries)[entries[i].0] == entries[i].1);
        }
    }
    assert(m1 =~= m2);
}

/// A name that a line of the file can hold and give back: it has no space
/// and no line feed in it, and does not end with a carriage return.
pub open spec fn is_storable_name(name: Seq<char>) -> bool {
    &&& forall|i: int| 0 <= i < name.len() ==> name[i] != ' ' && name[i] != '\n'
    &&& name.len() > 0 ==> name.last() != '\r'
}

/// Reading a text that is made of two goes through the first part and then
/// through the second, where the first part ends with a line.
proof fn lemma_read_in_two(ledger: Map<Seq<char>, Seq<u8>>, head: Seq<char>, tail: Seq<char>)
    requires
        head.len() > 0 ==> head.last() == '\n',
    ensures
        read_into(ledger, head + tail) == match read_into(ledger, head) {
            Some(between) => read_into(between, tail),
            None => None,
        },
    decreases head.len(),
{
    let text = head + tail;
    if head.len() == 0 {
        assert(text =~= tail);
    } else {
        lemma_first_index(head, '\n');
        let end = first_index(head, '\n');
        assert(first_index(text, '\n') == end) by {
            lemma_first_index_is(text, '\n', end);
        }
        assert(first_line(text) =~= first_line(head));
        let head_rest = after_first_line(head);
        assert(after_first_line(text) =~= head_rest + tail);
        match line_of(first_line(head)) {
            Line::Malformed => {},
            Line::Nothing => {
                lemma_read_in_two(ledger, head_rest, tail);
            },
            Line::Entry(name, hash) => {
                lemma_read_in_two(ledger.insert(name, hash), head_rest, tail);
            },
        }
    }
}

/// The line that is written for an entry reads as that entry.
proof fn lemma_entry_line_reads_back(ledger: Map<Seq<char>, Seq<u8>>, entry: Entry)
    requires
        is_storable_name(entry.0),
        entry.1.len() == 32,
    ensures
        read_into(ledger, entry_line(entry)) == Some(ledger.insert(entry.0, entry.1)),
{
    let name = entry.0;
    let hex = hex_encode(entry.1);
    let line = hex + seq![' '] + name;
    let text = entry_line(entry);
    lemma_hex_decode_encode(entry.1);
    assert forall|i: int| 0 <= i < 64 implies '0' <= (#[trigger] hex[i]) <= '9' || 'a' <= hex[i]
        <= 'f' by {
        lemma_hex_digit_reads_back(entry.1[i / 2] / 16);
        lemma_hex_digit_reads_back(entry.1[i / 2] % 16);
    }
    assert(first_index(text, '\n') == line.len()) by {
        assert forall|j: int| 0 <= j < line.len() implies text[j] != '\n' by {
            if j < 64 {
                assert(text[j] == hex[j]);
            } else if j > 64 {
                assert(text[j] == name[j - 65]);
            }
        }
        lemma_first_index_is(text, '\n', line.len() as int);
    }
    assert(first_line(text) =~= line) by {
        assert(text.take(line.len() as int) =~= line);
        assert(line.last() != '\r');
    }
    assert(after_first_line(text) =~= Seq::<char>::empty());
    assert(first_index(line, ' ') == 64) by {
        assert forall|j: int| 0 <= j < 64 implies line[j] != ' ' by {
            assert(line[j] == hex[j]);
        }
        lemma_first_index_is(line, ' ', 64);
    }
    assert(line_of(line) == Line::Entry(name, entry.1)) by {
        assert(line[0] == hex[0]);
        assert(line.take(64) =~= hex);
        assert(line.skip(65) =~= name);
        lemma_first_index_is(name, ' ', name.len() as int);
        assert(name.take(name.len() as int) =~= name);
    }
    let after = ledger.insert(name, entry.1);
    assert(read_into(ledger, text) == read_into(after, Seq::<char>::empty()));
}

/// What `to_writer` writes, `from_reader` reads back: the text written for
/// entries whose names are storable and whose hashes have thirty-two bytes
/// is a well-formed file, and holds the ledger of those entries.
pub proof fn lemma_written_reads_back(entries: Seq<Entry>)
    requires
        forall|i: int|
            0 <= i < entries.len() ==> is_storable_name((#[trigger] entries[i]).0)
                && entries[i].1.len() == 32,
    ensures
        read_ledger(written(entries)) == Some(ledger_of(entries)),
        written(entries).len() > 0 ==> written(entries).last() == '\n',
    decreases entries.len(),
{
    if entries.len() > 0 {
        let front = entries.drop_last();
        let last = entries.last();
        assert forall|i: int| 0 <= i < front.len() implies is_storable_name(
            (#[trigger] front[i]).0,
        ) && front[i].1.len() == 32 by {
            assert(front[i] == entries[i]);
        }
        lemma_written_reads_back(front);
        lemma_read_in_two(Map::empty(), written(front), entry_line(last));
        lemma_entry_line_reads_back(ledger_of(front), last);
    }
}

/// A line that is a comment, and a line without a space in it, are passed
/// over: the text reads as what follows the line does.
pub proof fn lemma_idle_line_is_passed_over(
    ledger: Map<Seq<char>, Seq<u8>>,
    line: Seq<char>,
    rest: Seq<char>,
)
    requires
        forall|i: int| 0 <= i < line.len() ==> line[i] != '\n',
        (line.len() > 0 && line[0] == '#') || forall|i: int|
            0 <= i < line.len() ==> line[i] != ' ',
    ensures
        read_into(ledger, line + seq!['\n'] + rest) == read_into(ledger, rest),
{
    let text = line + seq!['\n'] + rest;
    let end = line.len() as int;
    assert(first_index(text, '\n') == end) by {
        lemma_first_index_is(text, '\n', end);
    }
    let first = without_cr(line);
    assert(first_line(text) =~= first) by {
        assert(text.take(end) =~= line);
    }
    assert(after_first_line(text) =~= rest);
    assert(line_of(first) == Line::Nothing) by {
        if !(line.len() > 0 && line[0] == '#') {
            lemma_first_index_is(first, ' ', first.len() as int);
        }
    }
}

} // verus!
