//! The length-prefixed framing of the LSP base protocol: CRLF-terminated
//! headers, a required `Content-Length`, a blank line, then exactly that
//! many bytes of message body.

use vstd::prelude::*;

verus! {

/// Carriage return.
pub const CR: u8 = 13;

/// Line feed.
pub const LF: u8 = 10;

/// The bytes of `Content-Length: `, the one header the codec emits and
/// reads.
pub open spec fn content_length_prefix() -> Seq<u8> {
    seq![67u8, 111u8, 110u8, 116u8, 101u8, 110u8, 116u8, 45u8, 76u8, 101u8, 110u8, 103u8, 116u8, 104u8, 58u8, 32u8]
}

fn content_length_prefix_exec() -> (v: Vec<u8>)
    ensures
        v@ == content_length_prefix(),
{
    let mut v: Vec<u8> = Vec::new();
    v.push(67);
    v.push(111);
    v.push(110);
    v.push(116);
    v.push(101);
    v.push(110);
    v.push(116);
    v.push(45);
    v.push(76);
    v.push(101);
    v.push(110);
    v.push(103);
    v.push(116);
    v.push(104);
    v.push(58);
    v.push(32);
    proof {
        assert(v@ =~= content_length_prefix());
    }
    v
}

/// The decimal rendering of a natural number, as ASCII bytes.
pub open spec fn dec_bytes(n: nat) -> Seq<u8>
    decreases n,
{
    if n < 10 {
        seq![(48 + n) as u8]
    } else {
        dec_bytes(n / 10).push((48 + n % 10) as u8)
    }
}

/// Whether `x` is an ASCII decimal digit.
pub open spec fn is_digit_byte(x: u8) -> bool {
    48 <= x <= 57
}

/// Whether `s` is a non-empty run of ASCII decimal digits.
pub open spec fn all_digit_bytes(s: Seq<u8>) -> bool {
    s.len() > 0 && forall|i: int| 0 <= i < s.len() ==> is_digit_byte(#[trigger] s[i])
}

/// The value of a run of ASCII decimal digits.
pub open spec fn dec_bytes_val(s: Seq<u8>) -> nat
    decreases s.len(),
{
    if s.len() == 0 {
        0
    } else {
        dec_bytes_val(s.drop_last()) * 10 + (s.last() - 48) as nat
    }
}

/// Renders `n` in decimal as ASCII bytes.
pub fn dec_bytes_exec(n: usize) -> (v: Vec<u8>)
    ensures
        v@ == dec_bytes(n as nat),
    decreases n,
{
    if n < 10 {
        let mut v: Vec<u8> = Vec::new();
        v.push(48 + (n as u8));
        proof {
            assert(v@ =~= dec_bytes(n as nat));
        }
        v
    } else {
        let mut v = dec_bytes_exec(n / 10);
        v.push(48 + ((n % 10) as u8));
        v
    }
}

/// The decimal rendering of a number is all digits and reads back as the
/// number itself.
pub proof fn lemma_dec_bytes_round_trip(n: nat)
    ensures
        all_digit_bytes(dec_bytes(n)),
        dec_bytes_val(dec_bytes(n)) == n,
    decreases n,
{
    if n < 10 {
        assert(dec_bytes(n) =~= seq![(48 + n) as u8]);
        assert(dec_bytes(n).drop_last() =~= Seq::<u8>::empty());
        assert(dec_bytes_val(dec_bytes(n)) == dec_bytes_val(Seq::<u8>::empty()) * 10 + ((48 + n)
            - 48));
    } else {
        lemma_dec_bytes_round_trip(n / 10);
        assert(dec_bytes(n).drop_last() =~= dec_bytes(n / 10));
        assert(dec_bytes(n).last() == (48 + n % 10) as u8);
        assert(n == (n / 10) * 10 + n % 10);
        assert(dec_bytes_val(dec_bytes(n)) == dec_bytes_val(dec_bytes(n).drop_last()) * 10 + (
        dec_bytes(n).last() - 48));
        assert(forall|i: int|
            0 <= i < dec_bytes(n).len() ==> is_digit_byte(#[trigger] dec_bytes(n)[i])) by {
            assert(forall|i: int|
                0 <= i < dec_bytes(n / 10).len() ==> dec_bytes(n)[i] == dec_bytes(n / 10)[i]);
            assert(dec_bytes(n)[dec_bytes(n).len() - 1] == (48 + n % 10) as u8);
        }
    }
}

/// The full frame around a message body: the `Content-Length` header, a
/// blank line, then the body.
pub open spec fn frame_of(body: Seq<u8>) -> Seq<u8> {
    content_length_prefix() + dec_bytes(body.len()) + seq![CR, LF, CR, LF] + body
}

/// Wraps a message body in its frame.
pub fn encode_frame(body: &Vec<u8>) -> (r: Vec<u8>)
    ensures
        r@ == frame_of(body@),
{
    let mut r = content_length_prefix_exec();
    let digits = dec_bytes_exec(body.len());
    let mut i: usize = 0;
    while i < digits.len()
        invariant
            i <= digits@.len(),
            r@ == content_length_prefix() + digits@.subrange(0, i as int),
        decreases digits@.len() - i,
    {
        r.push(digits[i]);
        i = i + 1;
        proof {
            assert(r@ =~= content_length_prefix() + digits@.subrange(0, i as int));
        }
    }
    proof {
        assert(digits@.subrange(0, digits@.len() as int) =~= digits@);
    }
    r.push(CR);
    r.push(LF);
    r.push(CR);
    r.push(LF);
    let mut k: usize = 0;
    while k < body.len()
        invariant
            k <= body@.len(),
            r@ == content_length_prefix() + dec_bytes(body@.len()) + seq![CR, LF, CR, LF]
                + body@.subrange(0, k as int),
        decreases body@.len() - k,
    {
        r.push(body[k]);
        k = k + 1;
        proof {
            assert(r@ =~= content_length_prefix() + dec_bytes(body@.len()) + seq![CR, LF, CR, LF]
                + body@.subrange(0, k as int));
        }
    }
    proof {
        assert(r@ =~= frame_of(body@));
    }
    r
}

/// Which part of a frame the buffer ends in when it does not yet hold a
/// whole one. An empty buffer sits at a clean message boundary; a cut
/// within the headers or within the body is distinct from it.
pub enum FrameStage {
    AtBoundary,
    InHeaders,
    InBody,
}

/// Why a buffer cannot be decoded at all.
pub enum FrameError {
    /// A `Content-Length` header whose value is not a plain number that
    /// fits in `usize`.
    MalformedHeader,
    /// The blank line arrived and no `Content-Length` header preceded it.
    MissingContentLength,
}

/// The outcome of decoding the front of a buffer.
pub enum FrameOutcome {
    /// A whole frame: its body, and how many bytes of the buffer it took.
    Frame { body: Vec<u8>, consumed: usize },
    /// The buffer holds no whole frame yet; more input may complete it.
    Incomplete { stage: FrameStage },
    /// The buffer's first frame is invalid.
    Invalid { error: FrameError },
}

/// The spec-level outcome of decoding.
pub enum FrameOutcomeSpec {
    Frame { body: Seq<u8>, consumed: int },
    Incomplete { stage: FrameStage },
    Invalid { error: FrameError },
}

/// The first index at or after `from` holding `x`, or the length when
/// there is none.
pub open spec fn find_byte(s: Seq<u8>, from: int, x: u8) -> int
    decreases s.len() - from when 0 <= from <= s.len()
{
    if from >= s.len() {
        s.len() as int
    } else if s[from] == x {
        from
    } else {
        find_byte(s, from + 1, x)
    }
}

pub proof fn lemma_find_byte_props(s: Seq<u8>, from: int, x: u8)
    requires
        0 <= from <= s.len(),
    ensures
        from <= find_byte(s, from, x) <= s.len(),
        find_byte(s, from, x) < s.len() ==> s[find_byte(s, from, x)] == x,
        forall|j: int| from <= j < find_byte(s, from, x) ==> s[j] != x,
    decreases s.len() - from,
{
    if from < s.len() && s[from] != x {
        lemma_find_byte_props(s, from + 1, x);
    }
}

/// Where the first `x` is known, `find_byte` returns exactly it.
pub proof fn lemma_find_byte_exact(s: Seq<u8>, from: int, x: u8, at: int)
    requires
        0 <= from <= at < s.len(),
        s[at] == x,
        forall|j: int| from <= j < at ==> s[j] != x,
    ensures
        find_byte(s, from, x) == at,
    decreases at - from,
{
    if from < at {
        lemma_find_byte_exact(s, from + 1, x, at);
    }
}

/// One header line: the bytes before the line feed, any trailing carriage
/// return dropped.
pub open spec fn header_line(s: Seq<u8>, pos: int, nl: int) -> Seq<u8> {
    if nl > pos && s[nl - 1] == CR {
        s.subrange(pos, nl - 1)
    } else {
        s.subrange(pos, nl)
    }
}

/// Whether a header line carries `Content-Length` and what it says; only
/// a plain digit run that fits in `usize` is accepted.
pub open spec fn content_length_of(line: Seq<u8>) -> Option<nat> {
    if line.len() >= content_length_prefix().len() && line.subrange(
        0,
        content_length_prefix().len() as int,
    ) == content_length_prefix() {
        let digits = line.subrange(content_length_prefix().len() as int, line.len() as int);
        if all_digit_bytes(digits) && dec_bytes_val(digits) <= usize::MAX {
            Some(dec_bytes_val(digits))
        } else {
            None
        }
    } else {
        None
    }
}

/// Whether a header line even claims to be a `Content-Length` header.
pub open spec fn is_content_length_line(line: Seq<u8>) -> bool {
    line.len() >= content_length_prefix().len() && line.subrange(
        0,
        content_length_prefix().len() as int,
    ) == content_length_prefix()
}

/// Reads header lines from `pos` on: at the blank line it yields the byte
/// offset where the body starts and the last `Content-Length` value seen.
pub open spec fn scan_headers(s: Seq<u8>, pos: int, cl: Option<nat>) -> FrameOutcomeSpec
    decreases s.len() - pos
        when 0 <= pos <= s.len()
        via scan_headers_dec
{
    let nl = find_byte(s, pos, LF);
    if nl >= s.len() {
        FrameOutcomeSpec::Incomplete { stage: FrameStage::InHeaders }
    } else {
        let line = header_line(s, pos, nl);
        if line.len() == 0 {
            match cl {
                Some(n) => {
                    if nl + 1 + n <= s.len() {
                        FrameOutcomeSpec::Frame {
                            body: s.subrange(nl + 1, nl + 1 + n),
                            consumed: nl + 1 + n,
                        }
                    } else {
                        FrameOutcomeSpec::Incomplete { stage: FrameStage::InBody }
                    }
                },
                None => FrameOutcomeSpec::Invalid { error: FrameError::MissingContentLength },
            }
        } else if is_content_length_line(line) {
            match content_length_of(line) {
                Some(n) => scan_headers(s, nl + 1, Some(n)),
                None => FrameOutcomeSpec::Invalid { error: FrameError::MalformedHeader },
            }
        } else {
            scan_headers(s, nl + 1, cl)
        }
    }
}

#[via_fn]
proof fn scan_headers_dec(s: Seq<u8>, pos: int, cl: Option<nat>) {
    lemma_find_byte_props(s, pos, LF);
}

/// What decoding the front of `s` yields.
pub open spec fn decode_frame_spec(s: Seq<u8>) -> FrameOutcomeSpec {
    if s.len() == 0 {
        FrameOutcomeSpec::Incomplete { stage: FrameStage::AtBoundary }
    } else {
        scan_headers(s, 0, None)
    }
}

/// Whether an exec outcome agrees with a spec outcome.
pub open spec fn outcome_matches(r: &FrameOutcome, sp: FrameOutcomeSpec) -> bool {
    match (r, sp) {
        (FrameOutcome::Frame { body, consumed }, FrameOutcomeSpec::Frame {
            body: b,
            consumed: c,
        }) => body@ == b && *consumed == c,
        (FrameOutcome::Incomplete { stage }, FrameOutcomeSpec::Incomplete { stage: st }) => *stage
            == st,
        (FrameOutcome::Invalid { error }, FrameOutcomeSpec::Invalid { error: e }) => *error == e,
        _ => false,
    }
}

impl FrameStage {
    pub open spec fn spec_eq(self, other: FrameStage) -> bool {
        match (self, other) {
            (FrameStage::AtBoundary, FrameStage::AtBoundary) => true,
            (FrameStage::InHeaders, FrameStage::InHeaders) => true,
            (FrameStage::InBody, FrameStage::InBody) => true,
            _ => false,
        }
    }
}

fn find_lf(s: &Vec<u8>, from: usize) -> (r: usize)
    requires
        from <= s@.len(),
    ensures
        r == find_byte(s@, from as int, LF),
        from <= r <= s@.len(),
        r < s@.len() ==> s@[r as int] == LF,
        forall|j: int| from <= j < r ==> s@[j] != LF,
{
    let n = s.len();
    let mut i: usize = from;
    loop
        invariant
            from <= i <= n,
            n == s@.len(),
            find_byte(s@, from as int, LF) == find_byte(s@, i as int, LF),
            forall|j: int| from <= j < i ==> s@[j] != LF,
        decreases n - i,
    {
        if i == n {
            proof {
                lemma_find_byte_props(s@, i as int, LF);
            }
            return i;
        }
        if s[i] == LF {
            return i;
        }
        i = i + 1;
    }
}

/// Decodes the first frame at the front of `buf`, per `decode_frame_spec`:
/// a whole frame with its extent, or the stage the buffer breaks off in,
/// or the way its headers are invalid.
pub fn decode_frame(buf: &Vec<u8>) -> (r: FrameOutcome)
    ensures
        outcome_matches(&r, decode_frame_spec(buf@)),
{
    let n = buf.len();
    if n == 0 {
        return FrameOutcome::Incomplete { stage: FrameStage::AtBoundary };
    }
    let prefix = content_length_prefix_exec();
    let mut pos: usize = 0;
    let mut cl: Option<usize> = None;
    loop
        invariant
            pos <= n,
            n == buf@.len(),
            n > 0,
            prefix@ == content_length_prefix(),
            scan_headers(buf@, 0, None) == scan_headers(
                buf@,
                pos as int,
                match cl {
                    Some(v) => Some(v as nat),
                    None => None,
                },
            ),
        decreases n - pos,
    {
        let ghost cl_spec: Option<nat> = match cl {
            Some(v) => Some(v as nat),
            None => None,
        };
        let nl = find_lf(buf, pos);
        if nl == n {
            return FrameOutcome::Incomplete { stage: FrameStage::InHeaders };
        }
        // The line runs to the line feed; a trailing carriage return is
        // not part of it.
        let line_end: usize = if nl > pos && buf[nl - 1] == CR {
            nl - 1
        } else {
            nl
        };
        proof {
            assert(header_line(buf@, pos as int, nl as int) =~= buf@.subrange(
                pos as int,
                line_end as int,
            ));
        }
        if line_end == pos {
            // Blank line: headers are over.
            match cl {
                Some(len) => {
                    if n - (nl + 1) >= len {
                        let body = subrange_bytes(buf, nl + 1, nl + 1 + len);
                        return FrameOutcome::Frame { body, consumed: nl + 1 + len };
                    } else {
                        return FrameOutcome::Incomplete { stage: FrameStage::InBody };
                    }
                },
                None => {
                    return FrameOutcome::Invalid { error: FrameError::MissingContentLength };
                },
            }
        }
        // A non-blank header line.
        let is_cl = line_end - pos >= 16 && match_at_bytes(buf, &prefix, pos);
        proof {
            if line_end - pos >= 16 {
                assert(buf@.subrange(pos as int, pos + 16) =~= header_line(
                    buf@,
                    pos as int,
                    nl as int,
                ).subrange(0, 16));
            }
            assert(is_cl == is_content_length_line(header_line(buf@, pos as int, nl as int)));
        }
        if is_cl {
            let v = parse_usize_bytes(buf, pos + 16, line_end);
            proof {
                assert(buf@.subrange(pos + 16, line_end as int) =~= header_line(
                    buf@,
                    pos as int,
                    nl as int,
                ).subrange(16, header_line(buf@, pos as int, nl as int).len() as int));
            }
            match v {
                Some(val) => {
                    cl = Some(val);
                },
                None => {
                    return FrameOutcome::Invalid { error: FrameError::MalformedHeader };
                },
            }
        }
        pos = nl + 1;
    }
}

fn subrange_bytes(v: &Vec<u8>, i: usize, j: usize) -> (r: Vec<u8>)
    requires
        i <= j <= v@.len(),
    ensures
        r@ == v@.subrange(i as int, j as int),
{
    let mut r: Vec<u8> = Vec::new();
    let mut k: usize = i;
    while k < j
        invariant
            i <= k <= j <= v@.len(),
            r@ == v@.subrange(i as int, k as int),
        decreases j - k,
    {
        r.push(v[k]);
        k = k + 1;
        proof {
            assert(r@ =~= v@.subrange(i as int, k as int));
        }
    }
    r
}

fn match_at_bytes(hay: &Vec<u8>, needle: &Vec<u8>, at: usize) -> (r: bool)
    requires
        at + needle@.len() <= hay@.len(),
    ensures
        r == (hay@.subrange(at as int, at + needle@.len()) == needle@),
{
    let n = hay.len();
    let mut k: usize = 0;
    while k < needle.len()
        invariant
            n == hay@.len(),
            at + needle@.len() <= hay@.len(),
            k <= needle@.len(),
            forall|j: int| 0 <= j < k ==> hay@[at + j] == needle@[j],
        decreases needle@.len() - k,
    {
        if hay[at + k] != needle[k] {
            proof {
                assert(hay@.subrange(at as int, at + needle@.len())[k as int] == hay@[at + k]);
            }
            return false;
        }
        k = k + 1;
    }
    proof {
        assert(hay@.subrange(at as int, at + needle@.len()) =~= needle@);
    }
    true
}

/// A longer digit run never has a smaller value than a prefix of it.
proof fn lemma_dec_bytes_val_prefix_monotone(s: Seq<u8>, k: int)
    requires
        0 <= k <= s.len(),
        all_digit_bytes(s) || s.len() == 0,
    ensures
        dec_bytes_val(s.subrange(0, k)) <= dec_bytes_val(s),
    decreases s.len() - k,
{
    if k < s.len() {
        lemma_dec_bytes_val_prefix_monotone(s, k + 1);
        assert(s.subrange(0, k + 1).drop_last() =~= s.subrange(0, k));
        assert(dec_bytes_val(s.subrange(0, k)) <= dec_bytes_val(s.subrange(0, k + 1)));
    } else {
        assert(s.subrange(0, k) =~= s);
    }
}

/// Parses the digit run `buf[from..to]` as a `usize`, failing exactly when
/// the run is empty, a non-digit occurs, or the value overflows.
fn parse_usize_bytes(buf: &Vec<u8>, from: usize, to: usize) -> (r: Option<usize>)
    requires
        from <= to <= buf@.len(),
    ensures
        ({
            let digits = buf@.subrange(from as int, to as int);
            match r {
                Some(v) => all_digit_bytes(digits) && v == dec_bytes_val(digits)
                    && dec_bytes_val(digits) <= usize::MAX,
                None => !all_digit_bytes(digits) || dec_bytes_val(digits) > usize::MAX,
            }
        }),
{
    if from == to {
        return None;
    }
    let mut acc: usize = 0;
    let mut i: usize = from;
    while i < to
        invariant
            from <= i <= to <= buf@.len(),
            forall|k: int| from <= k < i ==> is_digit_byte(#[trigger] buf@[k]),
            acc == dec_bytes_val(buf@.subrange(from as int, i as int)),
        decreases to - i,
    {
        let b = buf[i];
        if !(48 <= b && b <= 57) {
            proof {
                assert(buf@.subrange(from as int, to as int)[i - from] == buf@[i as int]);
            }
            return None;
        }
        let d = (b - 48) as usize;
        if acc > (usize::MAX - d) / 10 {
            proof {
                let whole = buf@.subrange(from as int, to as int);
                assert(buf@.subrange(from as int, i as int + 1) =~= whole.subrange(
                    0,
                    i + 1 - from,
                ));
                assert(buf@.subrange(from as int, i as int + 1).drop_last() =~= buf@.subrange(
                    from as int,
                    i as int,
                ));
                assert(buf@.subrange(from as int, i as int + 1).last() == buf@[i as int]);
                assert(dec_bytes_val(buf@.subrange(from as int, i as int + 1)) > usize::MAX);
                if all_digit_bytes(whole) {
                    lemma_dec_bytes_val_prefix_monotone(whole, i + 1 - from);
                }
            }
            return None;
        }
        acc = acc * 10 + d;
        i = i + 1;
        proof {
            assert(buf@.subrange(from as int, i as int).drop_last() =~= buf@.subrange(
                from as int,
                i as int - 1,
            ));
            assert(buf@.subrange(from as int, i as int).last() == buf@[i - 1]);
        }
    }
    proof {
        assert(forall|k: int|
            0 <= k < to - from ==> is_digit_byte(
                #[trigger] buf@.subrange(from as int, to as int)[k],
            ));
    }
    Some(acc)
}

proof fn lemma_prefix_bytes()
    ensures
        forall|j: int| 0 <= j < 16 ==> content_length_prefix()[j] != LF,
        forall|j: int| 0 <= j < 16 ==> content_length_prefix()[j] != CR,
        content_length_prefix().len() == 16,
{
    let p = content_length_prefix();
    assert(p[0] == 67 && p[1] == 111 && p[2] == 110 && p[3] == 116 && p[4] == 101 && p[5] == 110
        && p[6] == 116 && p[7] == 45 && p[8] == 76 && p[9] == 101 && p[10] == 110 && p[11] == 103
        && p[12] == 116 && p[13] == 104 && p[14] == 58 && p[15] == 32);
}

/// Decoding a buffer that begins with the frame of `body` yields exactly
/// `body` and consumes exactly the frame, whatever follows it.
pub proof fn lemma_frame_round_trip(body: Seq<u8>, rest: Seq<u8>)
    requires
        body.len() <= usize::MAX,
    ensures
        decode_frame_spec(frame_of(body) + rest) matches FrameOutcomeSpec::Frame {
            body: b,
            consumed: c,
        } && b == body && c == frame_of(body).len(),
{
    let s = frame_of(body) + rest;
    let digits = dec_bytes(body.len());
    lemma_dec_bytes_round_trip(body.len());
    let dlen = digits.len() as int;
    let hl = 16 + dlen;
    lemma_prefix_bytes();
    assert forall|j: int| 0 <= j < hl implies s[j] != LF by {
        if j < 16 {
            assert(s[j] == content_length_prefix()[j]);
        } else {
            assert(s[j] == digits[j - 16]);
            assert(is_digit_byte(digits[j - 16]));
        }
    }
    assert(s[hl] == CR && s[hl + 1] == LF && s[hl + 2] == CR && s[hl + 3] == LF) by {
        assert(s[hl] == seq![CR, LF, CR, LF][0]);
        assert(s[hl + 1] == seq![CR, LF, CR, LF][1]);
        assert(s[hl + 2] == seq![CR, LF, CR, LF][2]);
        assert(s[hl + 3] == seq![CR, LF, CR, LF][3]);
    }
    lemma_find_byte_exact(s, 0, LF, hl + 1);
    let line = header_line(s, 0, hl + 1);
    assert(line =~= content_length_prefix() + digits) by {
        assert(s[hl] == CR);
        assert(line == s.subrange(0, hl));
    }
    assert(line.len() == hl);
    assert(is_content_length_line(line)) by {
        assert(line.subrange(0, 16) =~= content_length_prefix());
    }
    assert(line.subrange(16, line.len() as int) =~= digits);
    assert(content_length_of(line) == Some(body.len()));
    // The second line is blank, so the headers end there.
    lemma_find_byte_exact(s, hl + 2, LF, hl + 3);
    let line2 = header_line(s, hl + 2, hl + 3);
    assert(line2 =~= Seq::<u8>::empty()) by {
        assert(s[hl + 2] == CR);
    }
    assert(s.subrange(hl + 4, hl + 4 + body.len()) =~= body);
    assert(scan_headers(s, hl + 2, Some(body.len())) matches FrameOutcomeSpec::Frame {
        body: b,
        consumed: c,
    } && b == body && c == hl + 4 + body.len());
    assert(scan_headers(s, 0, None) == scan_headers(s, hl + 2, Some(body.len())));
    assert(frame_of(body).len() == hl + 4 + body.len());
}

/// Re-encoding a decoded body and decoding again gives the same body: the
/// codec is idempotent across a decode/encode cycle.
pub proof fn lemma_reencode_idempotent(s: Seq<u8>)
    requires
        s.len() <= usize::MAX,
        decode_frame_spec(s) is Frame,
    ensures
        decode_frame_spec(s) matches FrameOutcomeSpec::Frame { body, consumed } ==> decode_frame_spec(
            frame_of(body),
        ) matches FrameOutcomeSpec::Frame { body: b2, consumed: c2 } && b2 == body && c2
            == frame_of(body).len(),
{
    if let FrameOutcomeSpec::Frame { body, consumed } = decode_frame_spec(s) {
        lemma_scan_headers_body_bounded(s, 0, None);
        lemma_frame_round_trip(body, Seq::<u8>::empty());
        assert(frame_of(body) + Seq::<u8>::empty() =~= frame_of(body));
    }
}

/// A decoded body is a part of the buffer, so it is no longer than it.
proof fn lemma_scan_headers_body_bounded(s: Seq<u8>, pos: int, cl: Option<nat>)
    requires
        0 <= pos <= s.len(),
    ensures
        scan_headers(s, pos, cl) matches FrameOutcomeSpec::Frame { body, consumed } ==> body.len()
            <= s.len() && consumed <= s.len(),
    decreases s.len() - pos,
{
    lemma_find_byte_props(s, pos, LF);
    let nl = find_byte(s, pos, LF);
    if nl < s.len() {
        let line = header_line(s, pos, nl);
        if line.len() == 0 {
        } else if is_content_length_line(line) {
            if let Some(n) = content_length_of(line) {
                lemma_scan_headers_body_bounded(s, nl + 1, Some(n));
            }
        } else {
            lemma_scan_headers_body_bounded(s, nl + 1, cl);
        }
    }
}

} // verus!
