//! `ls`: which directory entries a listing keeps, how each entry is written, how sizes and
//! last-write times are shown, and what a failed listing answers.

use vstd::prelude::*;
use crate::ordered_pipeline::OrderedPipelineFaultV1;
use crate::runner_readonly::{fault_diagnostic, invalid_data_kind, out_of_memory_kind, ReadonlyExecutionErrorV1};
use crate::text::{byte_len, concat, decimal_text, digit_char, push_char, u64_text};
use crate::text_stream::{RecordFrameV1, TextStreamWriteErrorV1};

verus! {

pub const MAX_LS_ENTRIES: usize = 262144;
pub const MAX_LS_NAME_BYTES: usize = 67108864;

/// The Windows file attribute bits a listing reads.
pub const FILE_ATTRIBUTE_READONLY: u32 = 1;
pub const FILE_ATTRIBUTE_HIDDEN: u32 = 2;
pub const FILE_ATTRIBUTE_SYSTEM: u32 = 4;
pub const FILE_ATTRIBUTE_ARCHIVE: u32 = 32;
pub const FILE_ATTRIBUTE_REPARSE_POINT: u32 = 1024;
pub const FILE_ATTRIBUTE_COMPRESSED: u32 = 2048;

/// The unit after `unit` divisions by 1024.
pub open spec fn human_unit(unit: nat) -> Seq<char> {
    if unit == 0 {
        "KiB"@
    } else if unit == 1 {
        "MiB"@
    } else if unit == 2 {
        "GiB"@
    } else if unit == 3 {
        "TiB"@
    } else if unit == 4 {
        "PiB"@
    } else {
        "EiB"@
    }
}

/// `size` in tenths of `divisor`, rounded half up.
pub open spec fn human_tenths(size: nat, divisor: nat) -> nat {
    ((size * 10 + divisor / 2) / divisor) as nat
}

/// A size of at least 1 KiB in the first unit, from `unit` on, in which it shows below
/// 1024.0, or in EiB.
pub open spec fn human_from(size: nat, divisor: nat, unit: nat) -> Seq<char>
    decreases 6 - unit,
{
    let tenths = human_tenths(size, divisor);
    if tenths < 10240 || unit + 1 >= 6 {
        decimal_text(tenths / 10) + seq!['.', digit_char(tenths % 10)] + human_unit(unit)
    } else {
        human_from(size, divisor * 1024, unit + 1)
    }
}

/// A size as `ls -h` shows it: bytes below 1 KiB, else one decimal of the binary unit.
pub open spec fn spec_human_size(size: nat) -> Seq<char> {
    if size < 1024 {
        decimal_text(size) + seq!['B']
    } else {
        human_from(size, 1024, 0)
    }
}

/// The text of a unit.
fn human_unit_text(unit: usize) -> (r: &'static str)
    ensures
        r@ == human_unit(unit as nat),
{
    if unit == 0 {
        "KiB"
    } else if unit == 1 {
        "MiB"
    } else if unit == 2 {
        "GiB"
    } else if unit == 3 {
        "TiB"
    } else if unit == 4 {
        "PiB"
    } else {
        "EiB"
    }
}

/// A size as `ls -h` shows it.
pub fn human_size(size: u64) -> (r: String)
    ensures
        r@ == spec_human_size(size as nat),
{
    if size < 1024 {
        let digits = u64_text(size);
        let r = concat(digits.as_str(), "B");
        proof {
            reveal_strlit("B");
        }
        return r;
    }
    let wide: u128 = size as u128;
    let mut divisor: u128 = 1024;
    let mut unit: usize = 0;
    loop
        invariant
            wide == size,
            size >= 1024,
            (unit == 0 && divisor == 1024) || (unit == 1 && divisor == 1048576) || (unit == 2 && divisor == 1073741824)
                || (unit == 3 && divisor == 1099511627776) || (unit == 4 && divisor == 1125899906842624)
                || (unit == 5 && divisor == 1152921504606846976),
            human_from(size as nat, divisor as nat, unit as nat) == spec_human_size(size as nat),
        decreases 6 - unit,
    {
        let tenths: u128 = (wide * 10 + divisor / 2) / divisor;
        assert(tenths == human_tenths(size as nat, divisor as nat));
        if tenths < 10240 || unit + 1 == 6 {
            proof {
                let x = (size * 10 + divisor / 2) as int;
                vstd::arithmetic::div_mod::lemma_div_is_ordered_by_denominator(x, 1024, divisor as int);
                assert(x / 1024 < 0x100_0000_0000_0000_0);
            }
            let whole = u64_text((tenths / 10) as u64);
            let mut text = concat(whole.as_str(), ".");
            let d: u64 = (tenths % 10) as u64;
            let c = crate::text::char_from_ascii((d + 48) as u32);
            assert(c == digit_char((tenths % 10) as nat));
            push_char(&mut text, c);
            let r = concat(text.as_str(), human_unit_text(unit));
            proof {
                reveal_strlit(".");
                assert(r@ =~= decimal_text((tenths / 10) as nat) + seq!['.', digit_char((tenths % 10) as nat)] + human_unit(unit as nat));
            }
            return r;
        }
        divisor = divisor * 1024;
        unit = unit + 1;
    }
}

/// The decimal text of `n` with leading zeros up to `width` characters.
pub open spec fn zero_padded(n: nat, width: nat) -> Seq<char> {
    let digits = decimal_text(n);
    if digits.len() >= width {
        digits
    } else {
        Seq::new((width - digits.len()) as nat, |i: int| '0') + digits
    }
}

/// `n` written with at least `width` digits.
fn padded_text(n: u64, width: usize) -> (r: String)
    ensures
        r@ == zero_padded(n as nat, width as nat),
{
    let digits = u64_text(n);
    let len = digits.as_str().unicode_len();
    if len >= width {
        return digits;
    }
    let mut r = String::new();
    let mut k: usize = 0;
    while k < width - len
        invariant
            len < width,
            k <= width - len,
            r@ == Seq::new(k as nat, |i: int| '0'),
        decreases width - len - k,
    {
        push_char(&mut r, '0');
        k += 1;
        assert(r@ =~= Seq::new(k as nat, |i: int| '0'));
    }
    concat(r.as_str(), digits.as_str())
}

/// A local date and time, as the system gives it apart.
#[derive(Clone, Copy, Debug, Eq, PartialEq, Structural)]
pub struct LocalTimeV1 {
    pub year: u16,
    pub month: u16,
    pub day: u16,
    pub hour: u16,
    pub minute: u16,
    pub second: u16,
}

/// Why a listing could not be made.
#[derive(Clone, Copy, Debug, Eq, PartialEq, Structural)]
pub enum ListingFailureV1 {
    PathNotInspectable,
    DirectoryNotReadable,
    EntryNotReadable,
    NameNotUnicode,
    EntryNotInspectable,
    ResourceLimit,
    NoFileName,
    TimeNotConvertible,
    TimeZoneConversion,
    UtcConversion,
    LocalConversion,
    InvalidOffset,
}

/// The minutes by which local time is ahead of UTC, from the two times in ticks of 100 ns,
/// rounded toward zero.
pub open spec fn offset_minutes(utc_ticks: u64, local_ticks: u64) -> int {
    let diff = local_ticks - utc_ticks;
    if diff < 0 { -((-diff) / 600000000) } else { diff / 600000000 }
}

/// A last-write time as a listing shows it, `YYYY-MM-DDTHH:MM:SS+HH:MM`; an offset of more
/// than a day is refused.
pub open spec fn spec_local_time_text(t: LocalTimeV1, utc_ticks: u64, local_ticks: u64) -> Result<Seq<char>, ListingFailureV1> {
    let offset = offset_minutes(utc_ticks, local_ticks);
    if offset < -1440 || offset > 1440 {
        Err(ListingFailureV1::InvalidOffset)
    } else {
        let magnitude = (if offset < 0 { -offset } else { offset }) as nat;
        Ok(zero_padded(t.year as nat, 4) + seq!['-'] + zero_padded(t.month as nat, 2) + seq!['-']
            + zero_padded(t.day as nat, 2) + seq!['T'] + zero_padded(t.hour as nat, 2) + seq![':']
            + zero_padded(t.minute as nat, 2) + seq![':'] + zero_padded(t.second as nat, 2)
            + seq![if offset < 0 { '-' } else { '+' }] + zero_padded(magnitude / 60, 2) + seq![':']
            + zero_padded(magnitude % 60, 2))
    }
}

/// Appends `n` with at least `width` digits, then `sep` unless it is `None`.
fn push_field(text: &mut String, n: u64, width: usize, sep: Option<char>)
    ensures
        final(text)@ == old(text)@ + zero_padded(n as nat, width as nat) + match sep {
            Some(c) => seq![c],
            None => Seq::<char>::empty(),
        },
{
    let field = padded_text(n, width);
    let joined = concat(text.as_str(), field.as_str());
    *text = joined;
    match sep {
        Some(c) => push_char(text, c),
        None => {},
    }
}

/// Writes a last-write time given apart in local time, with the offset of local time from
/// UTC taken from the same instant in both, in ticks of 100 ns.
pub fn format_local_time(t: LocalTimeV1, utc_ticks: u64, local_ticks: u64) -> (r: Result<String, ListingFailureV1>)
    ensures
        match spec_local_time_text(t, utc_ticks, local_ticks) {
            Ok(s) => r matches Ok(x) && x@ == s,
            Err(e) => r == Err::<String, _>(e),
        },
{
    let ahead = local_ticks >= utc_ticks;
    let diff: u64 = if ahead { local_ticks - utc_ticks } else { utc_ticks - local_ticks };
    let magnitude: u64 = diff / 600000000;
    if magnitude > 1440 {
        return Err(ListingFailureV1::InvalidOffset);
    }
    let mut text = String::new();
    push_field(&mut text, t.year as u64, 4, Some('-'));
    push_field(&mut text, t.month as u64, 2, Some('-'));
    push_field(&mut text, t.day as u64, 2, Some('T'));
    push_field(&mut text, t.hour as u64, 2, Some(':'));
    push_field(&mut text, t.minute as u64, 2, Some(':'));
    push_field(&mut text, t.second as u64, 2, None);
    push_char(&mut text, if ahead || magnitude == 0 { '+' } else { '-' });
    push_field(&mut text, magnitude / 60, 2, Some(':'));
    push_field(&mut text, magnitude % 60, 2, None);
    proof {
        let offset = offset_minutes(utc_ticks, local_ticks);
        assert(magnitude as int == if offset < 0 { -offset } else { offset });
        assert(text@ =~= spec_local_time_text(t, utc_ticks, local_ticks)->Ok_0);
    }
    Ok(text)
}

/// What a failure of a listing says.
pub open spec fn failure_text(f: ListingFailureV1) -> Seq<char> {
    match f {
        ListingFailureV1::PathNotInspectable => "path cannot be inspected"@,
        ListingFailureV1::DirectoryNotReadable => "directory cannot be read"@,
        ListingFailureV1::EntryNotReadable => "directory entry cannot be read"@,
        ListingFailureV1::NameNotUnicode => "filename is not valid Unicode"@,
        ListingFailureV1::EntryNotInspectable => "directory entry cannot be inspected"@,
        ListingFailureV1::ResourceLimit => "directory listing resource limit exceeded"@,
        ListingFailureV1::NoFileName => "path has no displayable filename"@,
        ListingFailureV1::TimeNotConvertible => "last-write time cannot be converted"@,
        ListingFailureV1::TimeZoneConversion => "last-write time zone conversion failed"@,
        ListingFailureV1::UtcConversion => "last-write UTC conversion failed"@,
        ListingFailureV1::LocalConversion => "last-write local conversion failed"@,
        ListingFailureV1::InvalidOffset => "last-write time zone offset is invalid"@,
    }
}

impl ListingFailureV1 {
    /// The diagnostic a failed listing writes: `wingman ls: ` and what went wrong.
    pub fn diagnostic(&self) -> (r: String)
        ensures
            r@ == "wingman ls: "@ + failure_text(*self),
    {
        let detail = match self {
            ListingFailureV1::PathNotInspectable => "path cannot be inspected",
            ListingFailureV1::DirectoryNotReadable => "directory cannot be read",
            ListingFailureV1::EntryNotReadable => "directory entry cannot be read",
            ListingFailureV1::NameNotUnicode => "filename is not valid Unicode",
            ListingFailureV1::EntryNotInspectable => "directory entry cannot be inspected",
            ListingFailureV1::ResourceLimit => "directory listing resource limit exceeded",
            ListingFailureV1::NoFileName => "path has no displayable filename",
            ListingFailureV1::TimeNotConvertible => "last-write time cannot be converted",
            ListingFailureV1::TimeZoneConversion => "last-write time zone conversion failed",
            ListingFailureV1::UtcConversion => "last-write UTC conversion failed",
            ListingFailureV1::LocalConversion => "last-write local conversion failed",
            ListingFailureV1::InvalidOffset => "last-write time zone offset is invalid",
        };
        concat("wingman ls: ", detail)
    }
}

/// What a listing knows of an entry: its name, attributes, whether it is a directory or a
/// regular file, its size, and its last-write time as written, or why that failed.
pub struct ListingEntryV1 {
    pub name: String,
    pub attributes: u32,
    pub directory: bool,
    pub regular_file: bool,
    pub size: u64,
    pub modified: Result<String, ListingFailureV1>,
}

pub struct SpecListingEntry {
    pub name: Seq<char>,
    pub attributes: u32,
    pub directory: bool,
    pub regular_file: bool,
    pub size: u64,
    pub modified: Result<Seq<char>, ListingFailureV1>,
}

impl View for ListingEntryV1 {
    type V = SpecListingEntry;

    open spec fn view(&self) -> SpecListingEntry {
        SpecListingEntry {
            name: self.name@,
            attributes: self.attributes,
            directory: self.directory,
            regular_file: self.regular_file,
            size: self.size,
            modified: match self.modified {
                Ok(m) => Ok(m@),
                Err(e) => Err(e),
            },
        }
    }
}

pub open spec fn entries_view(s: Seq<ListingEntryV1>) -> Seq<SpecListingEntry> {
    s.map_values(|e: ListingEntryV1| e@)
}

/// Whether a listing without `-a` leaves an entry out: it is hidden or a system file.
pub open spec fn hidden_skipped(include_hidden: bool, attributes: u32) -> bool {
    !include_hidden && attributes & (FILE_ATTRIBUTE_HIDDEN | FILE_ATTRIBUTE_SYSTEM) != 0
}

/// The entries of a directory that a listing keeps, with the bytes of their names, counted
/// up to `usize::MAX`.
pub struct ListingCollectorV1 {
    include_hidden: bool,
    entries: Vec<ListingEntryV1>,
    name_bytes: usize,
}

pub struct SpecCollector {
    pub include_hidden: bool,
    pub entries: Seq<SpecListingEntry>,
    pub name_bytes: nat,
}

impl View for ListingCollectorV1 {
    type V = SpecCollector;

    closed spec fn view(&self) -> SpecCollector {
        SpecCollector { include_hidden: self.include_hidden, entries: entries_view(self.entries@), name_bytes: self.name_bytes as nat }
    }
}

/// `a + b`, or `usize::MAX` when that is less.
pub open spec fn saturating_sum(a: nat, b: nat) -> nat {
    if a + b > usize::MAX { usize::MAX as nat } else { a + b }
}

/// What taking an entry does to a listing: a left-out entry changes nothing; one more entry
/// than the limit, or names of more bytes than the limit, fail the listing.
pub open spec fn spec_take_entry(c: SpecCollector, e: SpecListingEntry) -> Result<SpecCollector, ListingFailureV1> {
    if hidden_skipped(c.include_hidden, e.attributes) {
        Ok(c)
    } else {
        let bytes = saturating_sum(c.name_bytes, vstd::utf8::encode_utf8(e.name).len());
        if c.entries.len() >= MAX_LS_ENTRIES || bytes > MAX_LS_NAME_BYTES {
            Err(ListingFailureV1::ResourceLimit)
        } else {
            Ok(SpecCollector { entries: c.entries.push(e), name_bytes: bytes, ..c })
        }
    }
}

impl ListingCollectorV1 {
    /// An empty listing; `include_hidden` is `-a`.
    pub fn new(include_hidden: bool) -> (r: Self)
        ensures
            r@ == (SpecCollector { include_hidden, entries: Seq::empty(), name_bytes: 0 }),
    {
        let r = ListingCollectorV1 { include_hidden, entries: Vec::new(), name_bytes: 0 };
        proof {
            assert(entries_view(r.entries@) =~= Seq::<SpecListingEntry>::empty());
        }
        r
    }

    /// Takes the next entry of the directory.
    pub fn take_entry(&mut self, entry: ListingEntryV1) -> (r: Result<(), ListingFailureV1>)
        ensures
            match spec_take_entry(old(self)@, entry@) {
                Ok(c) => r is Ok && final(self)@ == c,
                Err(e) => r == Err::<(), _>(e),
            },
    {
        if !self.include_hidden && entry.attributes & (FILE_ATTRIBUTE_HIDDEN | FILE_ATTRIBUTE_SYSTEM) != 0 {
            return Ok(());
        }
        let len = byte_len(entry.name.as_str());
        let bytes = if self.name_bytes > usize::MAX - len { usize::MAX } else { self.name_bytes + len };
        if self.entries.len() >= MAX_LS_ENTRIES || bytes > MAX_LS_NAME_BYTES {
            return Err(ListingFailureV1::ResourceLimit);
        }
        let ghost before = self.entries@;
        self.entries.push(entry);
        self.name_bytes = bytes;
        proof {
            assert(entries_view(self.entries@) =~= entries_view(before).push(entry@));
        }
        Ok(())
    }

    /// The entries kept, in the order taken.
    pub fn into_entries(self) -> (r: Vec<ListingEntryV1>)
        ensures
            entries_view(r@) == self@.entries,
    {
        self.entries
    }
}

/// The letter for an entry's kind: `l` for a reparse point, `d` for a directory, `-` for a
/// regular file, `?` otherwise.
pub open spec fn kind_letter(e: SpecListingEntry) -> char {
    if e.attributes & FILE_ATTRIBUTE_REPARSE_POINT != 0 {
        'l'
    } else if e.directory {
        'd'
    } else if e.regular_file {
        '-'
    } else {
        '?'
    }
}

/// `letter` when `flag` is set, `-` otherwise.
pub open spec fn flag_letter(attributes: u32, flag: u32, letter: char) -> char {
    if attributes & flag != 0 { letter } else { '-' }
}

/// The attribute letters of a long listing: read-only, archive, system, hidden, compressed.
pub open spec fn attribute_mask(a: u32) -> Seq<char> {
    seq![
        flag_letter(a, FILE_ATTRIBUTE_READONLY, 'R'),
        flag_letter(a, FILE_ATTRIBUTE_ARCHIVE, 'A'),
        flag_letter(a, FILE_ATTRIBUTE_SYSTEM, 'S'),
        flag_letter(a, FILE_ATTRIBUTE_HIDDEN, 'H'),
        flag_letter(a, FILE_ATTRIBUTE_COMPRESSED, 'C'),
    ]
}

/// The size column: a regular file's size, in bytes or with `-h` as `human_size` writes it;
/// `-` for anything else.
pub open spec fn size_column(e: SpecListingEntry, human: bool) -> Seq<char> {
    if kind_letter(e) == '-' {
        if human { spec_human_size(e.size as nat) } else { decimal_text(e.size as nat) }
    } else {
        seq!['-']
    }
}

/// A line of a long listing: kind, attributes, size, last-write time and name, separated by
/// spaces.
pub open spec fn long_line(e: SpecListingEntry, human: bool, modified: Seq<char>) -> Seq<char> {
    seq![kind_letter(e), ' '] + attribute_mask(e.attributes) + seq![' '] + size_column(e, human) + seq![' '] + modified
        + seq![' '] + e.name
}

/// What a listing writes for an entry: its name, or with `-l` its long line, which fails
/// where its last-write time could not be written.
pub open spec fn spec_listing_line(e: SpecListingEntry, long: bool, human: bool) -> Result<Seq<char>, ListingFailureV1> {
    if !long {
        Ok(e.name)
    } else {
        match e.modified {
            Ok(m) => Ok(long_line(e, human, m)),
            Err(f) => Err(f),
        }
    }
}

/// The lines of a listing, in order; the first entry that fails fails the listing.
pub open spec fn spec_listing_lines(entries: Seq<SpecListingEntry>, long: bool, human: bool) -> Result<Seq<Seq<char>>, ListingFailureV1>
    decreases entries.len(),
{
    if entries.len() == 0 {
        Ok(Seq::empty())
    } else {
        match spec_listing_lines(entries.drop_last(), long, human) {
            Err(f) => Err(f),
            Ok(lines) => match spec_listing_line(entries.last(), long, human) {
                Err(f) => Err(f),
                Ok(l) => Ok(lines.push(l)),
            },
        }
    }
}

/// A failure of a prefix of the entries is the failure of all of them.
proof fn lemma_listing_failure_sticks(entries: Seq<SpecListingEntry>, k: int, long: bool, human: bool)
    requires
        0 <= k <= entries.len(),
        spec_listing_lines(entries.take(k), long, human) is Err,
    ensures
        spec_listing_lines(entries, long, human) == spec_listing_lines(entries.take(k), long, human),
    decreases entries.len() - k,
{
    if k < entries.len() {
        assert(entries.take(k + 1).drop_last() =~= entries.take(k));
        lemma_listing_failure_sticks(entries, k + 1, long, human);
    } else {
        assert(entries.take(k) =~= entries);
    }
}

/// The letter for an entry's kind.
fn kind_char(entry: &ListingEntryV1) -> (r: char)
    ensures
        r == kind_letter(entry@),
{
    if entry.attributes & FILE_ATTRIBUTE_REPARSE_POINT != 0 {
        'l'
    } else if entry.directory {
        'd'
    } else if entry.regular_file {
        '-'
    } else {
        '?'
    }
}

/// The attribute letters of a long listing.
fn mask_text(a: u32) -> (r: String)
    ensures
        r@ == attribute_mask(a),
{
    let mut text = String::new();
    push_char(&mut text, if a & FILE_ATTRIBUTE_READONLY != 0 { 'R' } else { '-' });
    push_char(&mut text, if a & FILE_ATTRIBUTE_ARCHIVE != 0 { 'A' } else { '-' });
    push_char(&mut text, if a & FILE_ATTRIBUTE_SYSTEM != 0 { 'S' } else { '-' });
    push_char(&mut text, if a & FILE_ATTRIBUTE_HIDDEN != 0 { 'H' } else { '-' });
    push_char(&mut text, if a & FILE_ATTRIBUTE_COMPRESSED != 0 { 'C' } else { '-' });
    assert(text@ =~= attribute_mask(a));
    text
}

/// The size column of a long listing.
fn size_text(entry: &ListingEntryV1, human: bool) -> (r: String)
    ensures
        r@ == size_column(entry@, human),
{
    if kind_char(entry) == '-' {
        if human { human_size(entry.size) } else { u64_text(entry.size) }
    } else {
        let mut dash = String::new();
        push_char(&mut dash, '-');
        assert(dash@ =~= seq!['-']);
        dash
    }
}

/// The line of a long listing for an entry whose last-write time is `modified`.
pub fn format_long(entry: &ListingEntryV1, human: bool, modified: &str) -> (r: String)
    ensures
        r@ == long_line(entry@, human, modified@),
{
    let mut text = String::new();
    push_char(&mut text, kind_char(entry));
    push_char(&mut text, ' ');
    let mask = mask_text(entry.attributes);
    let mut line = concat(text.as_str(), mask.as_str());
    push_char(&mut line, ' ');
    let size = size_text(entry, human);
    let mut line = concat(line.as_str(), size.as_str());
    push_char(&mut line, ' ');
    let mut line = concat(line.as_str(), modified);
    push_char(&mut line, ' ');
    let r = concat(line.as_str(), entry.name.as_str());
    assert(r@ =~= long_line(entry@, human, modified@));
    r
}

/// The records of a listing, one terminated record per entry in the order given; the first
/// entry whose line fails fails the listing.
pub fn listing_records(entries: Vec<ListingEntryV1>, long: bool, human: bool) -> (r: Result<Vec<RecordFrameV1>, ListingFailureV1>)
    ensures
        match spec_listing_lines(entries_view(entries@), long, human) {
            Ok(lines) => r matches Ok(v) && v@.len() == lines.len()
                && forall|i: int| 0 <= i < v@.len() ==> (#[trigger] v@[i]).text@ == lines[i] && v@[i].terminated,
            Err(f) => r == Err::<Vec<RecordFrameV1>, _>(f),
        },
{
    let ghost all = entries_view(entries@);
    let mut out: Vec<RecordFrameV1> = Vec::new();
    let mut i: usize = 0;
    proof {
        assert(all.take(0) =~= Seq::<SpecListingEntry>::empty());
    }
    while i < entries.len()
        invariant
            all == entries_view(entries@),
            i <= entries@.len(),
            spec_listing_lines(all.take(i as int), long, human) matches Ok(lines) && out@.len() == lines.len()
                && forall|k: int| 0 <= k < out@.len() ==> (#[trigger] out@[k]).text@ == lines[k] && out@[k].terminated,
        decreases entries.len() - i,
    {
        let entry = &entries[i];
        let ghost lines = spec_listing_lines(all.take(i as int), long, human)->Ok_0;
        proof {
            assert(all.take(i as int + 1).drop_last() =~= all.take(i as int));
            assert(all.take(i as int + 1).last() == entry@);
        }
        let text = if !long {
            entry.name.clone()
        } else {
            match &entry.modified {
                Ok(m) => format_long(entry, human, m.as_str()),
                Err(f) => {
                    proof {
                        lemma_listing_failure_sticks(all, i as int + 1, long, human);
                    }
                    return Err(*f);
                },
            }
        };
        let ghost before = out@;
        out.push(RecordFrameV1 { text, terminated: true });
        i += 1;
        proof {
            let now = spec_listing_lines(all.take(i as int), long, human)->Ok_0;
            assert(now == lines.push(text@));
            assert forall|k: int| 0 <= k < out@.len() implies (#[trigger] out@[k]).text@ == now[k] && out@[k].terminated by {
                if k < before.len() {
                    assert(out@[k] == before[k]);
                }
            }
        }
    }
    proof {
        assert(all.take(i as int) =~= all);
    }
    Ok(out)
}

/// The diagnostic for output to a redirection target that failed part way.
pub open spec fn partial_redirect_text() -> Seq<char> {
    "wingman ls: redirection output failed and may be partial"@
}

/// What a fault of the stages after `ls` answers: a resource limit or bad numeric data a
/// diagnostic and exit code 1, an output fault the same with a redirection and otherwise an
/// output error, an overflow an output error, an unsupported stage or a cancellation an
/// unsupported plan. `Ok` holds the diagnostic to write.
pub open spec fn spec_listing_fault(f: OrderedPipelineFaultV1, redirected: bool) -> Result<Seq<char>, ReadonlyExecutionErrorV1> {
    match f {
        OrderedPipelineFaultV1::TailResource => Ok(fault_diagnostic(f).unwrap()),
        OrderedPipelineFaultV1::SortResource => Ok(fault_diagnostic(f).unwrap()),
        OrderedPipelineFaultV1::InvalidNumeric => Ok(fault_diagnostic(f).unwrap()),
        OrderedPipelineFaultV1::Output { kind } => if redirected {
            Ok(partial_redirect_text())
        } else {
            Err(ReadonlyExecutionErrorV1::Output { kind })
        },
        OrderedPipelineFaultV1::Overflow => Err(ReadonlyExecutionErrorV1::Output { kind: arbitrary() }),
        OrderedPipelineFaultV1::Unsupported => Err(ReadonlyExecutionErrorV1::UnsupportedPlan),
        OrderedPipelineFaultV1::Cancelled => Err(ReadonlyExecutionErrorV1::UnsupportedPlan),
    }
}

/// What a fault of the stages after `ls` answers; `Ok` holds the diagnostic to write before
/// exiting with code 1. An overflow is an output error of the kind `OutOfMemory`.
pub fn listing_fault_outcome(fault: OrderedPipelineFaultV1, redirected: bool) -> (r: Result<String, ReadonlyExecutionErrorV1>)
    ensures
        match spec_listing_fault(fault, redirected) {
            Ok(d) => r matches Ok(x) && x@ == d,
            Err(ReadonlyExecutionErrorV1::Output { .. }) => r matches Err(ReadonlyExecutionErrorV1::Output { .. })
                && (fault is Output ==> r == Err::<String, _>(spec_listing_fault(fault, redirected)->Err_0)),
            Err(e) => r == Err::<String, _>(e),
        },
{
    match fault {
        OrderedPipelineFaultV1::TailResource => Ok("wingman tail: buffer resource limit exceeded".to_string()),
        OrderedPipelineFaultV1::SortResource => Ok("wingman sort: materialization resource limit exceeded".to_string()),
        OrderedPipelineFaultV1::InvalidNumeric => Ok("wingman sort: invalid numeric data".to_string()),
        OrderedPipelineFaultV1::Output { kind } => if redirected {
            Ok("wingman ls: redirection output failed and may be partial".to_string())
        } else {
            Err(ReadonlyExecutionErrorV1::Output { kind })
        },
        OrderedPipelineFaultV1::Overflow => Err(ReadonlyExecutionErrorV1::Output { kind: out_of_memory_kind() }),
        OrderedPipelineFaultV1::Unsupported => Err(ReadonlyExecutionErrorV1::UnsupportedPlan),
        OrderedPipelineFaultV1::Cancelled => Err(ReadonlyExecutionErrorV1::UnsupportedPlan),
    }
}

/// The error a failed setup of the stages is: its output error, or an unsupported plan.
pub fn map_setup_fault(error: OrderedPipelineFaultV1) -> (r: ReadonlyExecutionErrorV1)
    ensures
        match error {
            OrderedPipelineFaultV1::Output { kind } => r == (ReadonlyExecutionErrorV1::Output { kind }),
            _ => r == ReadonlyExecutionErrorV1::UnsupportedPlan,
        },
{
    match error {
        OrderedPipelineFaultV1::Output { kind } => ReadonlyExecutionErrorV1::Output { kind },
        _ => ReadonlyExecutionErrorV1::UnsupportedPlan,
    }
}

/// The error a failed write of the records is: its kind, or `InvalidData` for text that
/// could not be encoded.
pub fn map_sink_error(error: TextStreamWriteErrorV1) -> (r: ReadonlyExecutionErrorV1)
    ensures
        match error {
            TextStreamWriteErrorV1::Io { kind } => r == (ReadonlyExecutionErrorV1::Output { kind }),
            TextStreamWriteErrorV1::Encode(_) => r is Output,
        },
{
    match error {
        TextStreamWriteErrorV1::Encode(_) => ReadonlyExecutionErrorV1::Output { kind: invalid_data_kind() },
        TextStreamWriteErrorV1::Io { kind } => ReadonlyExecutionErrorV1::Output { kind },
    }
}

/// What a failed write of the records answers: with a redirection, the diagnostic to write
/// before exiting with code 1; otherwise the error.
pub fn listing_sink_outcome(error: TextStreamWriteErrorV1, redirected: bool) -> (r: Result<String, ReadonlyExecutionErrorV1>)
    ensures
        redirected ==> (r matches Ok(d) && d@ == partial_redirect_text()),
        !redirected ==> match error {
            TextStreamWriteErrorV1::Io { kind } => r == Err::<String, _>(ReadonlyExecutionErrorV1::Output { kind }),
            TextStreamWriteErrorV1::Encode(_) => r matches Err(ReadonlyExecutionErrorV1::Output { .. }),
        },
{
    let mapped = map_sink_error(error);
    if redirected {
        Ok("wingman ls: redirection output failed and may be partial".to_string())
    } else {
        Err(mapped)
    }
}

} // verus!
