//! What has been observed of an attached client: its bytes, its printable text and its screen.

use vstd::prelude::*;
use crate::adapters::{Wait, WaitModel};
use crate::decimal;
use crate::screen;
use crate::screen::{Screen, ScreenModel};
use crate::sums;
use crate::text;

verus! {

/// When a marker was seen, and after how many bytes.
#[derive(Debug)]
pub struct MarkerObservation {
    pub elapsed: std::time::Duration,
    pub raw_bytes: u64,
}

// ---------------------------------------------------------------------------------------------
// Printable text
// ---------------------------------------------------------------------------------------------

/// A byte that belongs to printable text.
pub open spec fn kept(b: u8) -> bool {
    b != 0x1b && (b >= 0x20 || b == 10 || b == 13 || b == 9)
}

/// Where a control sequence whose body begins at `i` has ended: behind its final byte.
pub open spec fn after_csi(input: Seq<u8>, i: int) -> int
    decreases input.len() - i,
{
    if i >= input.len() {
        i
    } else if 0x40 <= input[i] <= 0x7e {
        i + 1
    } else {
        after_csi(input, i + 1)
    }
}

/// Where a control string whose body begins at `i` has ended: behind a bell or a terminator.
pub open spec fn after_string(input: Seq<u8>, i: int) -> int
    decreases input.len() - i,
{
    if i >= input.len() {
        i
    } else if input[i] == 7 {
        i + 1
    } else if input[i] == 0x1b && i + 1 < input.len() && input[i + 1] == 0x5c {
        i + 2
    } else {
        after_string(input, i + 1)
    }
}

/// Whether the byte after an escape begins a control string.
pub open spec fn opens_string(kind: u8) -> bool {
    kind == 0x5d || kind == 0x50 || kind == 0x5f || kind == 0x5e
}

/// Where what begins at `i` has ended: a byte, or a whole escape sequence.
pub open spec fn next_at(input: Seq<u8>, i: int) -> int {
    if input[i] != 0x1b {
        i + 1
    } else if i + 1 >= input.len() {
        i + 1
    } else if input[i + 1] == 0x5b {
        after_csi(input, i + 2)
    } else if opens_string(input[i + 1]) {
        after_string(input, i + 2)
    } else {
        i + 2
    }
}

/// The printable text from a position on, without escape sequences.
pub open spec fn stripped_from(input: Seq<u8>, i: int) -> Seq<u8>
    decreases input.len() - i,
{
    if i < 0 || i >= input.len() {
        Seq::empty()
    } else {
        proof {
            lemma_next_at(input, i);
        }
        let rest = stripped_from(input, next_at(input, i));
        if kept(input[i]) {
            seq![input[i]] + rest
        } else {
            rest
        }
    }
}

/// The printable text in some bytes, without escape sequences.
pub open spec fn stripped(input: Seq<u8>) -> Seq<u8> {
    stripped_from(input, 0)
}

proof fn lemma_after_csi(input: Seq<u8>, i: int)
    requires
        0 <= i <= input.len(),
    ensures
        i <= after_csi(input, i) <= input.len(),
    decreases input.len() - i,
{
    if i < input.len() && !(0x40 <= input[i] <= 0x7e) {
        lemma_after_csi(input, i + 1);
    }
}

proof fn lemma_after_string(input: Seq<u8>, i: int)
    requires
        0 <= i <= input.len(),
    ensures
        i <= after_string(input, i) <= input.len(),
    decreases input.len() - i,
{
    if i < input.len() && input[i] != 7 && !(input[i] == 0x1b && i + 1 < input.len() && input[i + 1]
        == 0x5c) {
        lemma_after_string(input, i + 1);
    }
}

pub proof fn lemma_next_at(input: Seq<u8>, i: int)
    requires
        0 <= i < input.len(),
    ensures
        i < next_at(input, i) <= input.len(),
{
    if input[i] == 0x1b && i + 1 < input.len() {
        lemma_after_csi(input, i + 2);
        lemma_after_string(input, i + 2);
    }
}

fn skip_csi(input: &[u8], from: usize) -> (r: usize)
    requires
        from <= input@.len(),
    ensures
        r == after_csi(input@, from as int),
        from <= r <= input@.len(),
{
    let mut i: usize = from;
    while i < input.len()
        invariant
            from <= i <= input@.len(),
            after_csi(input@, from as int) == after_csi(input@, i as int),
        decreases input@.len() - i,
    {
        if 0x40 <= input[i] && input[i] <= 0x7e {
            return i + 1;
        }
        i = i + 1;
    }
    i
}

fn skip_string(input: &[u8], from: usize) -> (r: usize)
    requires
        from <= input@.len(),
    ensures
        r == after_string(input@, from as int),
        from <= r <= input@.len(),
{
    let mut i: usize = from;
    while i < input.len()
        invariant
            from <= i <= input@.len(),
            after_string(input@, from as int) == after_string(input@, i as int),
        decreases input@.len() - i,
    {
        if input[i] == 7 {
            return i + 1;
        }
        if input[i] == 0x1b && input.len() - i > 1 && input[i + 1] == 0x5c {
            return i + 2;
        }
        i = i + 1;
    }
    i
}

/// Removes control sequences, control strings and two-byte escape sequences. The markers of the
/// benchmark are printable ASCII, so this favours finding markers over emulating a terminal.
pub fn strip_terminal_sequences(input: &[u8], output: &mut Vec<u8>)
    ensures
        final(output)@ == old(output)@ + stripped(input@),
{
    let ghost start = output@;
    let mut i: usize = 0;
    assert(start =~= start + Seq::<u8>::empty());
    while i < input.len()
        invariant
            i <= input@.len(),
            start + stripped(input@) =~= output@ + stripped_from(input@, i as int),
        decreases input@.len() - i,
    {
        let b: u8 = input[i];
        let ghost before = output@;
        proof {
            lemma_next_at(input@, i as int);
        }
        if b != 0x1b {
            if b >= 0x20 || b == 10 || b == 13 || b == 9 {
                output.push(b);
                assert(before + (seq![b] + stripped_from(input@, i + 1)) =~= output@
                    + stripped_from(input@, i + 1));
            }
            i = i + 1;
        } else if input.len() - i == 1 {
            i = i + 1;
        } else {
            let kind: u8 = input[i + 1];
            if kind == 0x5b {
                i = skip_csi(input, i + 2);
            } else if kind == 0x5d || kind == 0x50 || kind == 0x5f || kind == 0x5e {
                i = skip_string(input, i + 2);
            } else {
                i = i + 2;
            }
        }
    }
    assert(output@ + stripped_from(input@, i as int) =~= output@);
}

/// No escape byte and no other control than line breaks and tabs is left.
pub proof fn law_no_escape_is_left(input: Seq<u8>)
    ensures
        forall|i: int| 0 <= i < stripped(input).len() ==> kept(#[trigger] stripped(input)[i]),
{
    lemma_kept(input, 0);
}

proof fn lemma_kept(input: Seq<u8>, from: int)
    ensures
        forall|i: int|
            0 <= i < stripped_from(input, from).len() ==> kept(
                #[trigger] stripped_from(input, from)[i],
            ),
    decreases input.len() - from,
{
    if 0 <= from < input.len() {
        lemma_next_at(input, from);
        lemma_kept(input, next_at(input, from));
        let rest = stripped_from(input, next_at(input, from));
        if kept(input[from]) {
            let all = stripped_from(input, from);
            assert forall|i: int| 0 <= i < all.len() implies kept(#[trigger] all[i]) by {
                if i > 0 {
                    assert(all[i] == rest[i - 1]);
                }
            }
        }
    }
}

/// Printable text stays as it is.
pub proof fn law_printable_text_stays(input: Seq<u8>)
    requires
        forall|i: int| 0 <= i < input.len() ==> kept(#[trigger] input[i]),
    ensures
        stripped(input) == input,
{
    lemma_plain(input, 0);
    assert(input.skip(0) =~= input);
}

proof fn lemma_plain(input: Seq<u8>, from: int)
    requires
        0 <= from <= input.len(),
        forall|i: int| 0 <= i < input.len() ==> kept(#[trigger] input[i]),
    ensures
        stripped_from(input, from) == input.skip(from),
    decreases input.len() - from,
{
    if from < input.len() {
        assert(kept(input[from]));
        lemma_plain(input, from + 1);
        assert(seq![input[from]] + input.skip(from + 1) =~= input.skip(from));
    } else {
        assert(input.skip(from) =~= Seq::empty());
    }
}

/// Whether the needle, which is not empty, stands in the bytes.
pub open spec fn holds(haystack: Seq<u8>, needle: Seq<u8>) -> bool {
    needle.len() > 0 && exists|i: int| #[trigger] stands_at(haystack, needle, i)
}

pub open spec fn stands_at(haystack: Seq<u8>, needle: Seq<u8>, i: int) -> bool {
    0 <= i && i + needle.len() <= haystack.len() && haystack.subrange(i, i + needle.len())
        == needle
}

fn is_standing_at(haystack: &[u8], needle: &[u8], i: usize) -> (r: bool)
    requires
        i + needle@.len() <= haystack@.len(),
    ensures
        r == stands_at(haystack@, needle@, i as int),
{
    let total: usize = haystack.len();
    let mut k: usize = 0;
    while k < needle.len()
        invariant
            k <= needle@.len(),
            total == haystack@.len(),
            i + needle@.len() <= total,
            forall|j: int| 0 <= j < k ==> haystack@[i + j] == #[trigger] needle@[j],
        decreases needle@.len() - k,
    {
        if haystack[i + k] != needle[k] {
            assert(haystack@.subrange(i as int, i + needle@.len())[k as int] != needle@[k as int]);
            return false;
        }
        k = k + 1;
    }
    assert(haystack@.subrange(i as int, i + needle@.len()) =~= needle@);
    true
}

/// Whether the needle, which is not empty, stands in the bytes.
pub fn contains_subslice(haystack: &[u8], needle: &[u8]) -> (r: bool)
    ensures
        r == holds(haystack@, needle@),
{
    let n: usize = needle.len();
    let total: usize = haystack.len();
    if n == 0 || n > total {
        return false;
    }
    let mut i: usize = 0;
    while i <= total - n
        invariant
            n == needle@.len(),
            0 < n <= total,
            total == haystack@.len(),
            i <= total - n + 1,
            forall|k: int| 0 <= k < i ==> !#[trigger] stands_at(haystack@, needle@, k),
        decreases total - i,
    {
        if is_standing_at(haystack, needle, i) {
            return true;
        }
        i = i + 1;
    }
    false
}

/// The last bytes, at most so many.
pub open spec fn last_bytes(value: Seq<u8>, max: nat) -> Seq<u8> {
    if value.len() > max {
        value.skip(value.len() - max)
    } else {
        value
    }
}

/// The last bytes, at most so many.
pub fn tail(value: &[u8], max: usize) -> (r: Vec<u8>)
    ensures
        r@ == last_bytes(value@, max as nat),
{
    let n: usize = value.len();
    let from: usize = if n > max {
        n - max
    } else {
        0
    };
    let mut out: Vec<u8> = Vec::new();
    let mut i: usize = from;
    assert(out@ =~= value@.subrange(from as int, from as int));
    while i < n
        invariant
            from <= i <= n,
            n == value@.len(),
            out@ =~= value@.subrange(from as int, i as int),
        decreases n - i,
    {
        out.push(value[i]);
        i = i + 1;
    }
    assert(out@ =~= last_bytes(value@, max as nat));
    out
}

// ---------------------------------------------------------------------------------------------
// Observations
// ---------------------------------------------------------------------------------------------

/// More printable text than this is cut.
pub const KEEP_LIMIT: usize = 16_777_216;

/// This much of it is then kept.
pub const KEEP: usize = 8_388_608;

/// What has been observed of a client since the observation was last cleared; the screen follows
/// every byte since the client was attached.
#[derive(Debug)]
pub struct Observation {
    pub stripped: Vec<u8>,
    pub raw_bytes: u64,
    pub screen: Screen,
}

/// What an `Observation` says.
#[verifier::ext_equal]
pub ghost struct ObservationModel {
    pub stripped: Seq<u8>,
    pub raw_bytes: u64,
    pub screen: ScreenModel,
}

impl View for Observation {
    type V = ObservationModel;

    open spec fn view(&self) -> ObservationModel {
        ObservationModel {
            stripped: self.stripped@,
            raw_bytes: self.raw_bytes,
            screen: self.screen@,
        }
    }
}

/// Printable text that has grown too long, cut at its beginning.
pub open spec fn limited(value: Seq<u8>) -> Seq<u8> {
    if value.len() > KEEP_LIMIT {
        last_bytes(value, KEEP as nat)
    } else {
        value
    }
}

impl ObservationModel {
    pub open spec fn absorbed(self, bytes: Seq<u8>) -> ObservationModel {
        ObservationModel {
            stripped: limited(self.stripped + stripped(bytes)),
            raw_bytes: sums::capped(self.raw_bytes as nat + bytes.len()) as u64,
            screen: self.screen.fed(bytes),
        }
    }
}

/// Whether a marker was seen in the printable text, with what is said where it cannot come.
pub open spec fn text_wait(
    o: ObservationModel,
    marker: Seq<char>,
    exited: Option<Seq<char>>,
    elapsed: u64,
    seconds: u64,
) -> WaitModel {
    let shown = text::debugged(marker) + "; output tail: "@ + text::lossy(
        last_bytes(o.stripped, 500),
    );
    if holds(o.stripped, vstd::utf8::encode_utf8(marker)) {
        WaitModel::Done
    } else if let Some(status) = exited {
        WaitModel::Failed {
            error: "PTY child exited with "@ + status + " before marker "@ + shown,
        }
    } else if elapsed / 1000 >= seconds {
        WaitModel::Failed {
            error: "timed out after "@ + decimal::decimal(seconds as nat)
                + ".0s waiting for marker "@ + shown,
        }
    } else {
        WaitModel::Again { millis: 2 }
    }
}

/// Whether a text is visible on the screen, with what is said where it cannot become so.
pub open spec fn screen_wait(
    o: ObservationModel,
    wanted: Seq<char>,
    exited: Option<Seq<char>>,
    elapsed: u64,
    seconds: u64,
) -> WaitModel {
    let dump = screen::dumped(o.screen.grid());
    if screen::found(o.screen.grid().cells, wanted).len() > 0 {
        WaitModel::Done
    } else if let Some(status) = exited {
        WaitModel::Failed {
            error: "PTY child exited with "@ + status + " before "@ + text::debugged(wanted)
                + " became visible\n"@ + dump,
        }
    } else if elapsed / 1000 >= seconds {
        WaitModel::Failed {
            error: "timed out after "@ + decimal::decimal(seconds as nat) + ".0s waiting for "@
                + text::debugged(wanted) + " to become visible\n"@ + dump,
        }
    } else {
        WaitModel::Again { millis: 2 }
    }
}

impl Observation {
    /// Nothing observed yet, on a screen of this size.
    pub fn new(cols: u16, rows: u16) -> (r: Observation)
        ensures
            r@ == (ObservationModel {
                stripped: Seq::empty(),
                raw_bytes: 0,
                screen: ScreenModel::blank(cols as nat, rows as nat),
            }),
            r@.screen.wf(),
    {
        Observation { stripped: Vec::new(), raw_bytes: 0, screen: Screen::new(cols, rows) }
    }

    /// Takes in what the client has written.
    pub fn absorb(&mut self, bytes: &[u8])
        requires
            old(self)@.screen.wf(),
        ensures
            final(self)@ == old(self)@.absorbed(bytes@),
            final(self)@.screen.wf(),
            final(self)@.stripped.len() <= KEEP_LIMIT,
    {
        self.raw_bytes = sums::plus(self.raw_bytes, bytes.len() as u64);
        self.screen.feed(bytes);
        strip_terminal_sequences(bytes, &mut self.stripped);
        if self.stripped.len() > KEEP_LIMIT {
            let kept: Vec<u8> = tail(self.stripped.as_slice(), KEEP);
            self.stripped = kept;
        }
    }

    /// The bytes of the printable text, as they came.
    pub fn observed_text(&self) -> (r: &[u8])
        ensures
            r@ == self@.stripped,
    {
        self.stripped.as_slice()
    }

    /// Forgets the bytes and the text, but not the screen.
    pub fn clear(&mut self)
        ensures
            final(self)@ == (ObservationModel {
                stripped: Seq::empty(),
                raw_bytes: 0,
                screen: old(self)@.screen,
            }),
    {
        self.stripped = Vec::new();
        self.raw_bytes = 0;
    }

    /// Whether to go on waiting for a marker in the printable text. `exited` is how the client
    /// has ended, `elapsed` the milliseconds waited so far, and `seconds` how long to wait.
    pub fn text_next(&self, marker: &str, exited: &Option<String>, elapsed: u64, seconds: u64) -> (r:
        Wait)
        ensures
            r@ == text_wait(self@, marker@, text::opt_text(*exited), elapsed, seconds),
    {
        if contains_subslice(self.stripped.as_slice(), marker.as_bytes()) {
            return Wait::Done;
        }
        let shown: String = text::cat(
            text::cat(text::debug_text(marker), "; output tail: "),
            text::lossy_text(tail(self.stripped.as_slice(), 500).as_slice()).as_str(),
        );
        let ghost whole = text::debugged(marker@) + "; output tail: "@ + text::lossy(
            last_bytes(self.stripped@, 500),
        );
        assert(shown@ == whole);
        if let Some(status) = exited {
            let head: String = text::cat("PTY child exited with ".to_owned(), status.as_str());
            return Wait::Failed {
                error: text::cat(text::cat(head, " before marker "), shown.as_str()),
            };
        }
        if elapsed / 1000 >= seconds {
            let head: String = text::cat(
                "timed out after ".to_owned(),
                decimal::decimal_text(seconds).as_str(),
            );
            return Wait::Failed {
                error: text::cat(text::cat(head, ".0s waiting for marker "), shown.as_str()),
            };
        }
        Wait::Again { millis: 2 }
    }

    /// Whether to go on waiting for a text to become visible. Where the same cells may already
    /// hold most of the text, a renderer that writes only what has changed never writes the whole
    /// text, although all of it is visible.
    pub fn screen_next(
        &self,
        wanted: &str,
        exited: &Option<String>,
        elapsed: u64,
        seconds: u64,
    ) -> (r: Wait)
        requires
            self@.screen.wf(),
        ensures
            r@ == screen_wait(self@, wanted@, text::opt_text(*exited), elapsed, seconds),
    {
        if self.screen.count(wanted) > 0 {
            return Wait::Done;
        }
        if let Some(status) = exited {
            let head: String = text::cat("PTY child exited with ".to_owned(), status.as_str());
            let named: String = text::cat(
                text::cat(head, " before "),
                text::debug_text(wanted).as_str(),
            );
            return Wait::Failed {
                error: text::cat(
                    text::cat(named, " became visible\n"),
                    self.screen.dump().as_str(),
                ),
            };
        }
        if elapsed / 1000 >= seconds {
            let head: String = text::cat(
                "timed out after ".to_owned(),
                decimal::decimal_text(seconds).as_str(),
            );
            let named: String = text::cat(
                text::cat(head, ".0s waiting for "),
                text::debug_text(wanted).as_str(),
            );
            return Wait::Failed {
                error: text::cat(
                    text::cat(named, " to become visible\n"),
                    self.screen.dump().as_str(),
                ),
            };
        }
        Wait::Again { millis: 2 }
    }
}

// ---------------------------------------------------------------------------------------------
// Moving bytes, and ending a client
// ---------------------------------------------------------------------------------------------

/// What came of handing bytes to a client or taking bytes from it.
#[derive(Debug)]
pub enum Transfer {
    Moved { count: usize },
    /// Nothing can be moved at the moment.
    Blocked,
    Interrupted,
    /// The client has gone.
    Hangup { error: String },
    Failed { error: String },
}

/// For so many nanoseconds input is offered to a client that does not take it.
pub const SEND_NANOS: u64 = 2_000_000_000;

/// Where to go on after `offset` bytes of input were taken, and how many milliseconds to wait
/// before that. A client that takes nothing at all, or for too long, is given up.
pub fn send_next(sent: &Transfer, offset: usize, total: usize, elapsed: u64) -> (r: Result<
    (usize, u64),
    String,
>)
    requires
        offset <= total,
        sent matches Transfer::Moved { count } ==> count <= total - offset,
    ensures
        match sent {
            Transfer::Moved { count } => if *count == 0 {
                r matches Err(error) && error@ == "PTY accepted zero input bytes"@
            } else {
                r == Ok::<(usize, u64), String>(((offset + *count) as usize, 0))
            },
            Transfer::Blocked => if elapsed > SEND_NANOS {
                r matches Err(error) && error@ == "timed out writing to PTY"@
            } else {
                r == Ok::<(usize, u64), String>((offset, 1))
            },
            Transfer::Interrupted => r == Ok::<(usize, u64), String>((offset, 0)),
            Transfer::Hangup { error: cause } => r matches Err(error) && error@
                == "PTY write failed: "@ + cause@,
            Transfer::Failed { error: cause } => r matches Err(error) && error@
                == "PTY write failed: "@ + cause@,
        },
{
    match sent {
        Transfer::Moved { count } => {
            if *count == 0 {
                return Err("PTY accepted zero input bytes".to_owned());
            }
            Ok((offset + *count, 0))
        },
        Transfer::Blocked => {
            if elapsed > SEND_NANOS {
                return Err("timed out writing to PTY".to_owned());
            }
            Ok((offset, 1))
        },
        Transfer::Interrupted => Ok((offset, 0)),
        Transfer::Hangup { error } => Err(
            text::cat("PTY write failed: ".to_owned(), error.as_str()),
        ),
        Transfer::Failed { error } => Err(
            text::cat("PTY write failed: ".to_owned(), error.as_str()),
        ),
    }
}

/// Whether there may be more to read. A client that has nothing to say, or that has gone, is no
/// failure.
pub fn read_next(read: &Transfer) -> (r: Result<bool, String>)
    ensures
        match read {
            Transfer::Moved { count } => r == Ok::<bool, String>(*count > 0),
            Transfer::Blocked => r == Ok::<bool, String>(false),
            Transfer::Interrupted => r == Ok::<bool, String>(true),
            Transfer::Hangup { .. } => r == Ok::<bool, String>(false),
            Transfer::Failed { error: cause } => r matches Err(error) && error@
                == "PTY read failed: "@ + cause@,
        },
{
    match read {
        Transfer::Moved { count } => Ok(*count > 0),
        Transfer::Blocked => Ok(false),
        Transfer::Interrupted => Ok(true),
        Transfer::Hangup { .. } => Ok(false),
        Transfer::Failed { error } => Err(
            text::cat("PTY read failed: ".to_owned(), error.as_str()),
        ),
    }
}

/// For so many milliseconds a client may end by itself.
pub const GRACE_MILLIS: u64 = 500;

/// What to do with a client that was asked to end.
#[derive(Debug, Clone, Copy, PartialEq, Eq, Structural)]
pub enum Ending {
    Gone,
    Wait { millis: u64 },
    Kill,
}

/// A client that was asked to end is killed only after the grace period.
pub fn end_next(reaped: bool, elapsed: u64) -> (r: Ending)
    ensures
        r == (if elapsed >= GRACE_MILLIS {
            Ending::Kill
        } else if reaped {
            Ending::Gone
        } else {
            Ending::Wait { millis: 10 }
        }),
{
    if elapsed >= GRACE_MILLIS {
        Ending::Kill
    } else if reaped {
        Ending::Gone
    } else {
        Ending::Wait { millis: 10 }
    }
}

} // verus!
