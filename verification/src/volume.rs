use crate::identity::{is_lower_hex, is_uuid_text, random_uuid};
use crate::path::{child, child_of, relative_to, strip_root};
use crate::text::{
    append_chars, chars_of, contains_chars, contains_text, decimal, is_digit, is_whitespace_char,
    lemma_decimal_digits, lemma_decimal_injective, lines,
    lowercase, push_decimal, rows, split_lines, split_words, string_of, to_lowercase, trim,
    trim_end, trim_start, trimmed, words,
};
use vstd::prelude::*;

verus! {

/// Why a volume operation failed.
#[derive(Debug, PartialEq, Eq)]
pub enum VolumeError {
    /// The path does not lie under the root.
    PathNotUnderRoot,
    /// The metadata of the root could not be read; the reason is the system's.
    MetadataUnavailable(String),
}

/// The mathematical value of a `VolumeError`.
pub ghost enum VolumeErrorView {
    PathNotUnderRoot,
    MetadataUnavailable(Seq<char>),
}

impl View for VolumeError {
    type V = VolumeErrorView;

    open spec fn view(&self) -> VolumeErrorView {
        match *self {
            VolumeError::PathNotUnderRoot => VolumeErrorView::PathNotUnderRoot,
            VolumeError::MetadataUnavailable(reason) => VolumeErrorView::MetadataUnavailable(reason@),
        }
    }
}

impl VolumeError {
    /// The error in words.
    pub fn message(&self) -> (r: String)
        ensures
            r@ == match *self {
                VolumeError::PathNotUnderRoot => "prefix not found"@,
                VolumeError::MetadataUnavailable(reason) => reason@,
            },
    {
        match self {
            VolumeError::PathNotUnderRoot => "prefix not found".to_string(),
            VolumeError::MetadataUnavailable(reason) => reason.clone(),
        }
    }
}

/// The path of `absolute` relative to `root`. Fails with `PathNotUnderRoot`
/// exactly where the components of `root` are not the first components of
/// `absolute`.
pub fn to_relative_path(root: &str, absolute: &str) -> (r: Result<String, VolumeError>)
    ensures
        match r {
            Ok(relative) => relative_to(root@, absolute@) == Some(relative@),
            Err(e) => relative_to(root@, absolute@) is None && e == VolumeError::PathNotUnderRoot,
        },
{
    match strip_root(root, absolute) {
        Some(relative) => Ok(relative),
        None => Err(VolumeError::PathNotUnderRoot),
    }
}

/// How the system tells one storage volume from another.
#[derive(Debug, PartialEq, Eq)]
pub enum SystemIdentity {
    /// The device and the inode of the root directory.
    Posix { device: u64, inode: u64 },
    /// The letter of the drive, where the path has one, and what the volume
    /// utility printed for the drive, where it ran and succeeded.
    Drive { letter: Option<char>, volume_output: Option<String> },
}

/// The mathematical value of a `SystemIdentity`.
pub ghost enum SystemIdentityView {
    Posix { device: u64, inode: u64 },
    Drive { letter: Option<char>, volume_output: Option<Seq<char>> },
}

impl View for SystemIdentity {
    type V = SystemIdentityView;

    open spec fn view(&self) -> SystemIdentityView {
        match *self {
            SystemIdentity::Posix { device, inode } => SystemIdentityView::Posix { device, inode },
            SystemIdentity::Drive { letter, volume_output } => SystemIdentityView::Drive {
                letter,
                volume_output: crate::path::text_of(volume_output),
            },
        }
    }
}

/// A hexadecimal digit of either case.
pub open spec fn is_hex_digit(c: char) -> bool {
    ('0' <= c && c <= '9') || ('a' <= c && c <= 'f') || ('A' <= c && c <= 'F')
}

/// A word that can be a volume serial number: hexadecimal digits and hyphens.
pub open spec fn is_serial_word(word: Seq<char>) -> bool {
    forall|i: int| 0 <= i < word.len() ==> is_hex_digit(#[trigger] word[i]) || word[i] == '-'
}

/// The last of `ws` that can be a serial number.
pub open spec fn last_serial_word(ws: Seq<Seq<char>>) -> Option<Seq<char>>
    decreases ws.len(),
{
    if ws.len() == 0 {
        None
    } else if is_serial_word(ws.last()) {
        Some(ws.last())
    } else {
        last_serial_word(ws.drop_last())
    }
}

/// The serial number on a line: the last word made of hexadecimal digits and
/// hyphens, on a line that says `serial` in any case.
pub open spec fn serial_of_line(line: Seq<char>) -> Option<Seq<char>> {
    if contains_text(lowercase(line), "serial"@) {
        last_serial_word(words(line))
    } else {
        None
    }
}

/// The serial number on the first of `ls` that holds one.
pub open spec fn first_serial(ls: Seq<Seq<char>>) -> Option<Seq<char>>
    decreases ls.len(),
{
    if ls.len() == 0 {
        None
    } else {
        match serial_of_line(ls[0]) {
            Some(serial) => Some(serial),
            None => first_serial(ls.drop_first()),
        }
    }
}

/// What stands for a serial number that could not be found.
pub open spec fn unknown_serial() -> Seq<char> {
    "UNKNOWN"@
}

/// The serial number of a volume, from what the volume utility printed.
pub open spec fn volume_serial(output: Option<Seq<char>>) -> Seq<char> {
    match output {
        Some(text) => match first_serial(lines(text)) {
            Some(serial) => serial,
            None => unknown_serial(),
        },
        None => unknown_serial(),
    }
}

/// The key of a volume that carries the token `token` in its marker file.
pub open spec fn custom_key(token: Seq<char>) -> Seq<char> {
    "custom:"@ + token
}

/// The key of a volume by the device and inode of its root.
pub open spec fn posix_key(device: u64, inode: u64) -> Seq<char> {
    "unix:"@ + decimal(device as nat) + seq![':'] + decimal(inode as nat)
}

/// The key of a volume by its drive letter, `C` where it has none, and its
/// serial number.
pub open spec fn drive_key(letter: Option<char>, serial: Seq<char>) -> Seq<char> {
    "win:"@ + seq![
        match letter {
            Some(c) => c,
            None => 'C',
        },
    ] + seq![':'] + serial
}

/// The key that the system's own identity of a volume gives.
pub open spec fn system_key(identity: SystemIdentityView) -> Seq<char> {
    match identity {
        SystemIdentityView::Posix { device, inode } => posix_key(device, inode),
        SystemIdentityView::Drive { letter, volume_output } => drive_key(
            letter,
            volume_serial(volume_output),
        ),
    }
}

fn is_serial(word: &Vec<char>) -> (r: bool)
    ensures
        r == is_serial_word(word@),
{
    let mut i: usize = 0;
    while i < word.len()
        invariant
            i <= word.len(),
            forall|j: int| 0 <= j < i ==> is_hex_digit(#[trigger] word@[j]) || word@[j] == '-',
        decreases word.len() - i,
    {
        let c = word[i];
        let ok = ('0' <= c && c <= '9') || ('a' <= c && c <= 'f') || ('A' <= c && c <= 'F') || c
            == '-';
        if !ok {
            return false;
        }
        i += 1;
    }
    true
}

/// The serial number on `line`, whose lowercase form is `lower`: the last word
/// of the line made of hexadecimal digits and hyphens, where `lower` says
/// `serial`.
pub fn serial_on_line(line: &Vec<char>, lower: &Vec<char>) -> (r: Option<Vec<char>>)
    ensures
        match r {
            Some(serial) => contains_text(lower@, "serial"@) && last_serial_word(words(line@)) == Some(
                serial@,
            ),
            None => !contains_text(lower@, "serial"@) || last_serial_word(words(line@)) is None,
        },
{
    let needle = chars_of("serial");
    if !contains_chars(lower, &needle) {
        return None;
    }
    assert(line@.subrange(0, line.len() as int) =~= line@);
    let ws = split_words(line, 0, line.len());
    let ghost all = rows(ws@);
    let mut i: usize = ws.len();
    assert(all.take(i as int) =~= all);
    while i > 0
        invariant
            i <= ws.len(),
            all == rows(ws@),
            all == words(line@),
            contains_text(lower@, "serial"@),
            last_serial_word(all) == last_serial_word(all.take(i as int)),
        decreases i,
    {
        proof {
            assert(all.take(i as int).last() == ws@[i - 1]@);
            assert(all.take(i as int).drop_last() =~= all.take(i - 1));
        }
        if is_serial(&ws[i - 1]) {
            return Some(crate::text::copy_chars(&ws[i - 1]));
        }
        i -= 1;
    }
    None
}

/// The serial number on a line of the volume utility's output.
pub fn parse_serial_line(line: &Vec<char>) -> (r: Option<Vec<char>>)
    ensures
        match r {
            Some(serial) => serial_of_line(line@) == Some(serial@),
            None => serial_of_line(line@) is None,
        },
{
    let text = string_of(line);
    let lower = chars_of(to_lowercase(text.as_str()).as_str());
    serial_on_line(line, &lower)
}

/// The serial number of a volume, from what the volume utility printed.
pub fn parse_volume_serial(output: Option<&str>) -> (r: String)
    ensures
        r@ == volume_serial(
            match output {
                Some(text) => Some(text@),
                None => None,
            },
        ),
{
    match output {
        None => "UNKNOWN".to_string(),
        Some(text) => {
            let all = split_lines(&chars_of(text));
            let ghost ls = rows(all@);
            let mut i: usize = 0;
            assert(ls.skip(0) =~= ls);
            while i < all.len()
                invariant
                    i <= all.len(),
                    output == Some(text),
                    ls == rows(all@),
                    ls == lines(text@),
                    first_serial(ls) == first_serial(ls.skip(i as int)),
                decreases all.len() - i,
            {
                proof {
                    assert(ls.skip(i as int)[0] == all@[i as int]@);
                    assert(ls.skip(i as int).drop_first() =~= ls.skip(i + 1));
                }
                match parse_serial_line(&all[i]) {
                    Some(serial) => {
                        return string_of(&serial);
                    },
                    None => {},
                }
                i += 1;
            }
            "UNKNOWN".to_string()
        },
    }
}

/// The key that the system's own identity of a volume gives.
pub fn get_system_volume_key(identity: &SystemIdentity) -> (r: String)
    ensures
        r@ == system_key(identity@),
{
    match identity {
        SystemIdentity::Posix { device, inode } => {
            let mut out = chars_of("unix:");
            push_decimal(&mut out, *device);
            out.push(':');
            push_decimal(&mut out, *inode);
            assert(out@ =~= posix_key(*device, *inode));
            string_of(&out)
        },
        SystemIdentity::Drive { letter, volume_output } => {
            let serial = match volume_output {
                Some(text) => parse_volume_serial(Some(text.as_str())),
                None => parse_volume_serial(None),
            };
            let mut out = chars_of("win:");
            out.push(
                match letter {
                    Some(c) => *c,
                    None => 'C',
                },
            );
            out.push(':');
            append_chars(&mut out, &chars_of(serial.as_str()));
            assert(out@ =~= system_key(identity@));
            string_of(&out)
        },
    }
}

/// The key that the content of a marker file gives: its token, the content
/// without the white space around it, where that is not empty.
pub open spec fn key_from_marker(content: Seq<char>) -> Option<Seq<char>> {
    if trimmed(content).len() > 0 {
        Some(custom_key(trimmed(content)))
    } else {
        None
    }
}

/// The key that the content of a marker file gives.
pub fn marker_key(content: &str) -> (r: Option<String>)
    ensures
        crate::path::text_of(r) == key_from_marker(content@),
{
    let token = trim(&chars_of(content));
    if token.len() == 0 {
        return None;
    }
    Some(token_key(string_of(&token).as_str()))
}

/// The key of a volume that carries `token` in its marker file.
pub fn token_key(token: &str) -> (r: String)
    ensures
        r@ == custom_key(token@),
{
    let mut out = chars_of("custom:");
    append_chars(&mut out, &chars_of(token));
    string_of(&out)
}

/// The name of the file in a root that holds the token of its volume.
pub open spec fn marker_name() -> Seq<char> {
    ".videovault.volume-id"@
}

/// The name of the file that is made and removed to see whether a root can
/// be written to.
pub open spec fn probe_name() -> Seq<char> {
    ".vv.__probe__"@
}

/// Where the resolution of a volume key stands.
#[derive(Debug, PartialEq, Eq)]
pub enum Stage {
    /// The marker file is to be read.
    ReadingMarker,
    /// The root is to be probed for writing.
    Probing,
    /// `token` is to be written to the marker file.
    Persisting { token: String },
    /// The system is to be asked for its identity of the volume.
    QueryingSystem,
    /// The resolution has ended.
    Finished { outcome: Result<String, VolumeError> },
}

/// The mathematical value of a `Stage`.
pub ghost enum StageView {
    ReadingMarker,
    Probing,
    Persisting { token: Seq<char> },
    QueryingSystem,
    Finished { outcome: Result<Seq<char>, VolumeErrorView> },
}

impl View for Stage {
    type V = StageView;

    open spec fn view(&self) -> StageView {
        match *self {
            Stage::ReadingMarker => StageView::ReadingMarker,
            Stage::Probing => StageView::Probing,
            Stage::Persisting { token } => StageView::Persisting { token: token@ },
            Stage::QueryingSystem => StageView::QueryingSystem,
            Stage::Finished { outcome } => StageView::Finished {
                outcome: match outcome {
                    Ok(key) => Ok(key@),
                    Err(e) => Err(e@),
                },
            },
        }
    }
}

/// What the caller is asked to do next.
#[derive(Debug, PartialEq, Eq)]
pub enum Request {
    /// Read the file at `path` and report its content.
    ReadMarker { path: String },
    /// Create and remove the file at `path` and report whether that worked.
    ProbeWritable { path: String },
    /// Write `token` to the file at `path` and report whether that worked.
    WriteMarker { path: String, token: String },
    /// Ask the system for its identity of the volume of `root`.
    QuerySystem { root: String },
    /// Nothing: the resolution has ended with `outcome`.
    Done { outcome: Result<String, VolumeError> },
}

/// The mathematical value of a `Request`.
pub ghost enum RequestView {
    ReadMarker { path: Seq<char> },
    ProbeWritable { path: Seq<char> },
    WriteMarker { path: Seq<char>, token: Seq<char> },
    QuerySystem { root: Seq<char> },
    Done { outcome: Result<Seq<char>, VolumeErrorView> },
}

impl View for Request {
    type V = RequestView;

    open spec fn view(&self) -> RequestView {
        match *self {
            Request::ReadMarker { path } => RequestView::ReadMarker { path: path@ },
            Request::ProbeWritable { path } => RequestView::ProbeWritable { path: path@ },
            Request::WriteMarker { path, token } => RequestView::WriteMarker {
                path: path@,
                token: token@,
            },
            Request::QuerySystem { root } => RequestView::QuerySystem { root: root@ },
            Request::Done { outcome } => RequestView::Done {
                outcome: match outcome {
                    Ok(key) => Ok(key@),
                    Err(e) => Err(e@),
                },
            },
        }
    }
}

/// What the caller found when it did as it was asked.
#[derive(Debug, PartialEq, Eq)]
pub enum Event {
    /// The content of the marker file, where it could be read.
    MarkerRead { content: Option<String> },
    /// Whether the root can be written to.
    Probed { writable: bool },
    /// Whether the token was written to the marker file.
    MarkerWritten { success: bool },
    /// The system's identity of the volume, or why it could not be had.
    SystemQueried { identity: Result<SystemIdentity, String> },
}

/// The mathematical value of an `Event`.
pub ghost enum EventView {
    MarkerRead { content: Option<Seq<char>> },
    Probed { writable: bool },
    MarkerWritten { success: bool },
    SystemQueried { identity: Result<SystemIdentityView, Seq<char>> },
}

impl View for Event {
    type V = EventView;

    open spec fn view(&self) -> EventView {
        match *self {
            Event::MarkerRead { content } => EventView::MarkerRead {
                content: crate::path::text_of(content),
            },
            Event::Probed { writable } => EventView::Probed { writable },
            Event::MarkerWritten { success } => EventView::MarkerWritten { success },
            Event::SystemQueried { identity } => EventView::SystemQueried {
                identity: match identity {
                    Ok(found) => Ok(found@),
                    Err(reason) => Err(reason@),
                },
            },
        }
    }
}

/// What a stage asks of the caller.
pub open spec fn request_of(root: Seq<char>, stage: StageView) -> RequestView {
    match stage {
        StageView::ReadingMarker => RequestView::ReadMarker { path: child(root, marker_name()) },
        StageView::Probing => RequestView::ProbeWritable { path: child(root, probe_name()) },
        StageView::Persisting { token } => RequestView::WriteMarker {
            path: child(root, marker_name()),
            token,
        },
        StageView::QueryingSystem => RequestView::QuerySystem { root },
        StageView::Finished { outcome } => RequestView::Done { outcome },
    }
}

/// The stage that follows `stage` on `event`. A marker with a token ends the
/// resolution with the token's key. Without one the root is probed; where it
/// can be written to, `token` is to be persisted, and once that is done its
/// key is the outcome. Where the root cannot be written to, or the token not
/// persisted, the system's identity decides. An event that the stage did not
/// ask for changes nothing.
pub open spec fn next_stage(stage: StageView, event: EventView, token: Seq<char>) -> StageView {
    match (stage, event) {
        (StageView::ReadingMarker, EventView::MarkerRead { content }) => match content {
            Some(text) => match key_from_marker(text) {
                Some(key) => StageView::Finished { outcome: Ok(key) },
                None => StageView::Probing,
            },
            None => StageView::Probing,
        },
        (StageView::Probing, EventView::Probed { writable }) => if writable {
            StageView::Persisting { token }
        } else {
            StageView::QueryingSystem
        },
        (StageView::Persisting { token: pending }, EventView::MarkerWritten { success }) => if success {
            StageView::Finished { outcome: Ok(custom_key(pending)) }
        } else {
            StageView::QueryingSystem
        },
        (StageView::QueryingSystem, EventView::SystemQueried { identity }) => StageView::Finished {
            outcome: match identity {
                Ok(found) => Ok(system_key(found)),
                Err(reason) => Err(VolumeErrorView::MetadataUnavailable(reason)),
            },
        },
        _ => stage,
    }
}

/// Whether `event` at `stage` calls for a fresh token.
pub open spec fn needs_token(stage: StageView, event: EventView) -> bool {
    match (stage, event) {
        (StageView::Probing, EventView::Probed { writable }) => writable,
        _ => false,
    }
}

/// The resolution of the key of the volume that holds a root, as a sequence
/// of requests to the caller and of the caller's reports.
pub struct VolumeKeyResolver {
    root: String,
    stage: Stage,
}

impl VolumeKeyResolver {
    /// The root whose volume is being resolved.
    pub closed spec fn root(&self) -> Seq<char> {
        self.root@
    }

    /// Where the resolution stands.
    pub closed spec fn stage(&self) -> StageView {
        self.stage@
    }

    /// Starts the resolution for `root`.
    pub fn new(root: String) -> (r: Self)
        ensures
            r.root() == root@,
            r.stage() == StageView::ReadingMarker,
    {
        VolumeKeyResolver { root, stage: Stage::ReadingMarker }
    }

    /// What the caller is to do next.
    pub fn request(&self) -> (r: Request)
        ensures
            r@ == request_of(self.root(), self.stage()),
    {
        match &self.stage {
            Stage::ReadingMarker => Request::ReadMarker {
                path: child_of(self.root.as_str(), ".videovault.volume-id"),
            },
            Stage::Probing => Request::ProbeWritable {
                path: child_of(self.root.as_str(), ".vv.__probe__"),
            },
            Stage::Persisting { token } => Request::WriteMarker {
                path: child_of(self.root.as_str(), ".videovault.volume-id"),
                token: token.clone(),
            },
            Stage::QueryingSystem => Request::QuerySystem { root: self.root.clone() },
            Stage::Finished { outcome } => Request::Done {
                outcome: match outcome {
                    Ok(key) => Ok(key.clone()),
                    Err(VolumeError::PathNotUnderRoot) => Err(VolumeError::PathNotUnderRoot),
                    Err(VolumeError::MetadataUnavailable(reason)) => Err(
                        VolumeError::MetadataUnavailable(reason.clone()),
                    ),
                },
            },
        }
    }

    /// Takes the caller's report, with `token` as the token to persist where
    /// one is called for.
    pub fn advance_with_token(self, event: Event, token: String) -> (r: Self)
        ensures
            r.root() == self.root(),
            r.stage() == next_stage(self.stage(), event@, token@),
    {
        let VolumeKeyResolver { root, stage } = self;
        let next = match (stage, event) {
            (Stage::ReadingMarker, Event::MarkerRead { content }) => match content {
                Some(text) => match marker_key(text.as_str()) {
                    Some(key) => Stage::Finished { outcome: Ok(key) },
                    None => Stage::Probing,
                },
                None => Stage::Probing,
            },
            (Stage::Probing, Event::Probed { writable }) => if writable {
                Stage::Persisting { token }
            } else {
                Stage::QueryingSystem
            },
            (Stage::Persisting { token: pending }, Event::MarkerWritten { success }) => if success {
                Stage::Finished { outcome: Ok(token_key(pending.as_str())) }
            } else {
                Stage::QueryingSystem
            },
            (Stage::QueryingSystem, Event::SystemQueried { identity }) => Stage::Finished {
                outcome: match identity {
                    Ok(found) => Ok(get_system_volume_key(&found)),
                    Err(reason) => Err(VolumeError::MetadataUnavailable(reason)),
                },
            },
            (stage, _) => stage,
        };
        VolumeKeyResolver { root, stage: next }
    }

    /// Whether `event` calls for a fresh token at this stage.
    pub fn wants_token(&self, event: &Event) -> (r: bool)
        ensures
            r == needs_token(self.stage(), event@),
    {
        match (&self.stage, event) {
            (Stage::Probing, Event::Probed { writable }) => *writable,
            _ => false,
        }
    }

    /// Takes the caller's report. Where the root was found writable, a fresh
    /// random token is drawn for it.
    pub fn advance(self, event: Event) -> (r: Self)
        ensures
            r.root() == self.root(),
            needs_token(self.stage(), event@) ==> r.stage() is Persisting && is_uuid_text(
                r.stage()->Persisting_token,
            ),
            !needs_token(self.stage(), event@) ==> r.stage() == next_stage(
                self.stage(),
                event@,
                Seq::empty(),
            ),
    {
        if self.wants_token(&event) {
            let token = random_uuid();
            self.advance_with_token(event, token)
        } else {
            self.advance_with_token(event, String::new())
        }
    }
}

/// A token in the shape of a UUID is read back from its marker file as it
/// was written: the key of a marker that holds it is the key of the token.
pub proof fn lemma_token_reads_back(token: Seq<char>)
    requires
        is_uuid_text(token),
    ensures
        key_from_marker(token) == Some(custom_key(token)),
{
    assert(is_lower_hex(token[0]));
    assert(is_lower_hex(token[35]));
    assert(!is_whitespace_char(token[0]));
    assert(!is_whitespace_char(token[35]));
    assert(token.last() == token[35]);
    assert(trim_start(token) == token);
    assert(trim_end(token) == token);
}

/// Resolving twice gives one key. On a root that can be written to, the
/// first resolution finds no marker, persists `token` and ends with its key;
/// the second finds the marker with that token and ends with the same key.
pub proof fn lemma_resolution_is_stable(token: Seq<char>)
    requires
        is_uuid_text(token),
    ensures
        ({
            let first = next_stage(
                next_stage(
                    next_stage(
                        StageView::ReadingMarker,
                        EventView::MarkerRead { content: None },
                        token,
                    ),
                    EventView::Probed { writable: true },
                    token,
                ),
                EventView::MarkerWritten { success: true },
                token,
            );
            let second = next_stage(
                StageView::ReadingMarker,
                EventView::MarkerRead { content: Some(token) },
                Seq::empty(),
            );
            first == second && first == (StageView::Finished { outcome: Ok(custom_key(token)) })
        }),
{
    lemma_token_reads_back(token);
}

/// Two roots that the system tells apart get two keys: where the device or
/// the inode differs, so does the key.
pub proof fn lemma_posix_keys_tell_roots_apart(d1: u64, i1: u64, d2: u64, i2: u64)
    requires
        posix_key(d1, i1) == posix_key(d2, i2),
    ensures
        d1 == d2,
        i1 == i2,
{
    reveal_strlit("unix:");
    let p = "unix:"@;
    let a = decimal(d1 as nat);
    let b = decimal(d2 as nat);
    let x = decimal(i1 as nat);
    let y = decimal(i2 as nat);
    let m = a.len() as int;
    let n = b.len() as int;
    let k1 = p + a + seq![':'] + x;
    let k2 = p + b + seq![':'] + y;
    lemma_decimal_digits(d1 as nat);
    lemma_decimal_digits(d2 as nat);
    assert(k1 == k2);
    assert(p.len() == 5);
    assert forall|j: int| 0 <= j < a.len() implies k1[5 + j] == a[j] by {}
    assert forall|j: int| 0 <= j < b.len() implies k2[5 + j] == b[j] by {}
    assert(k1[5 + m] == ':');
    assert(k2[5 + n] == ':');
    if m < n {
        assert(k2[5 + m] == b[m]);
        assert(is_digit(b[m]));
        assert(false);
    }
    if n < m {
        assert(k1[5 + n] == a[n]);
        assert(is_digit(a[n]));
        assert(false);
    }
    assert(a =~= b) by {
        assert forall|j: int| 0 <= j < a.len() implies a[j] == b[j] by {
            assert(k1[5 + j] == a[j]);
            assert(k2[5 + j] == b[j]);
        }
    }
    assert(x =~= k1.skip(6 + m));
    assert(y =~= k2.skip(6 + n));
    lemma_decimal_injective(d1 as nat, d2 as nat);
    lemma_decimal_injective(i1 as nat, i2 as nat);
}

/// Two tokens give two keys.
pub proof fn lemma_custom_keys_tell_tokens_apart(t1: Seq<char>, t2: Seq<char>)
    requires
        custom_key(t1) == custom_key(t2),
    ensures
        t1 == t2,
{
    let p = "custom:"@;
    assert(t1 =~= (p + t1).skip(p.len() as int));
    assert(t2 =~= (p + t2).skip(p.len() as int));
}

/// The letter under which a drive's key is made.
pub open spec fn key_letter(letter: Option<char>) -> char {
    match letter {
        Some(c) => c,
        None => 'C',
    }
}

/// Two drives that differ in their letter or their serial number get two
/// keys.
pub proof fn lemma_drive_keys_tell_drives_apart(
    l1: Option<char>,
    s1: Seq<char>,
    l2: Option<char>,
    s2: Seq<char>,
)
    requires
        drive_key(l1, s1) == drive_key(l2, s2),
    ensures
        key_letter(l1) == key_letter(l2),
        s1 == s2,
{
    reveal_strlit("win:");
    let k1 = drive_key(l1, s1);
    let k2 = drive_key(l2, s2);
    assert(k1[4] == key_letter(l1));
    assert(k2[4] == key_letter(l2));
    assert(s1 =~= k1.skip(6));
    assert(s2 =~= k2.skip(6));
}

/// The three kinds of key never meet: a key made from a token is none made
/// from a device and inode, and neither is one made from a drive.
pub proof fn lemma_key_kinds_differ(
    token: Seq<char>,
    device: u64,
    inode: u64,
    letter: Option<char>,
    serial: Seq<char>,
)
    ensures
        custom_key(token) != posix_key(device, inode),
        custom_key(token) != drive_key(letter, serial),
        posix_key(device, inode) != drive_key(letter, serial),
{
    reveal_strlit("custom:");
    reveal_strlit("unix:");
    reveal_strlit("win:");
    assert(custom_key(token)[0] == 'c');
    assert(posix_key(device, inode)[0] == 'u');
    assert(drive_key(letter, serial)[0] == 'w');
}

} // verus!
