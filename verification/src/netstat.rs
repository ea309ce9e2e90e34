//! Reading the port that a process listens on out of a socket listing.
//!
//! The listing is read as ASCII text, byte by byte: lines end at a line
//! feed, and the fields of a line are separated by white space. A line
//! counts when it mentions both `LISTENING` and `TCP` and has five fields
//! or more. Its last field is the pid of the owner; its second field is the
//! local address, whose port follows the last colon.

use vstd::prelude::*;

verus! {

/// The line feed.
pub const LINE_FEED: u8 = 10;

/// The colon.
pub const COLON: u8 = 58;

/// The plus sign.
pub const PLUS: u8 = 43;

/// The digit zero.
pub const ZERO: u8 = 48;

/// The digit nine.
pub const NINE: u8 = 57;

/// The bytes of `LISTENING`.
pub open spec fn listening() -> Seq<u8> {
    seq![76u8, 73u8, 83u8, 84u8, 69u8, 78u8, 73u8, 78u8, 71u8]
}

/// The bytes of `TCP`.
pub open spec fn tcp() -> Seq<u8> {
    seq![84u8, 67u8, 80u8]
}

/// Whether a byte is ASCII white space: a blank, or one of the controls
/// from the tabulator to the carriage return.
pub open spec fn is_space(b: u8) -> bool {
    b == 32 || (9 <= b && b <= 13)
}

/// Whether a byte is a decimal digit.
pub open spec fn is_digit(b: u8) -> bool {
    ZERO <= b && b <= NINE
}

/// Whether `pattern` stands in `t` at place `k`.
pub open spec fn stands_at(t: Seq<u8>, k: int, pattern: Seq<u8>) -> bool {
    forall|i: int| 0 <= i < pattern.len() ==> #[trigger] t[k + i] == pattern[i]
}

/// Whether `pattern` occurs in `t` between `lo` and `hi`.
pub open spec fn occurs(t: Seq<u8>, lo: int, hi: int, pattern: Seq<u8>) -> bool {
    exists|k: int| lo <= k && k + pattern.len() <= hi && #[trigger] stands_at(t, k, pattern)
}

/// Whether a field of the line that begins at `lo` starts at `j`.
pub open spec fn field_start(t: Seq<u8>, lo: int, j: int) -> bool {
    lo <= j && !is_space(t[j]) && (j == lo || is_space(t[j - 1]))
}

/// How many fields of the line that begins at `lo` start before `j`.
pub open spec fn fields_before(t: Seq<u8>, lo: int, j: int) -> nat
    decreases j - lo,
{
    if j <= lo {
        0
    } else {
        fields_before(t, lo, j - 1) + if field_start(t, lo, j - 1) {
            1nat
        } else {
            0nat
        }
    }
}

/// Where the field ends that holds place `j`: at the first white space
/// from `j` on, or at the line's end `hi`.
pub open spec fn field_end(t: Seq<u8>, j: int, hi: int) -> int
    decreases hi - j,
{
    if j >= hi || is_space(t[j]) {
        j
    } else {
        field_end(t, j + 1, hi)
    }
}

/// Whether the field number `n`, counting from zero, starts at `j`.
pub open spec fn is_field(t: Seq<u8>, lo: int, hi: int, n: nat, j: int) -> bool {
    lo <= j < hi && field_start(t, lo, j) && fields_before(t, lo, j) == n
}

/// Where the field number `n` starts.
pub open spec fn field_at(t: Seq<u8>, lo: int, hi: int, n: nat) -> int {
    choose|j: int| is_field(t, lo, hi, n, j)
}

/// The number that the digits between `lo` and `hi` spell.
pub open spec fn digits_value(t: Seq<u8>, lo: int, hi: int) -> nat
    decreases hi - lo,
{
    if hi <= lo {
        0
    } else {
        (digits_value(t, lo, hi - 1) * 10 + (t[hi - 1] - ZERO)) as nat
    }
}

/// Whether every byte between `lo` and `hi` is a digit.
pub open spec fn all_digits(t: Seq<u8>, lo: int, hi: int) -> bool {
    forall|i: int| lo <= i < hi ==> is_digit(#[trigger] t[i])
}

/// The number written between `lo` and `hi`, if one is: digits, at least
/// one, after a plus sign or none, that spell no more than `max`.
pub open spec fn number(t: Seq<u8>, lo: int, hi: int, max: nat) -> Option<nat> {
    let from = if lo < hi && t[lo] == PLUS {
        lo + 1
    } else {
        lo
    };
    if from < hi && all_digits(t, from, hi) && digits_value(t, from, hi) <= max {
        Some(digits_value(t, from, hi))
    } else {
        None
    }
}

/// The place of the last colon between `lo` and `hi`.
pub open spec fn last_colon(t: Seq<u8>, lo: int, hi: int) -> Option<int>
    decreases hi - lo,
{
    if hi <= lo {
        None
    } else if t[hi - 1] == COLON {
        Some(hi - 1)
    } else {
        last_colon(t, lo, hi - 1)
    }
}

/// The port written in the field that starts at `from`: the number after
/// the field's last colon.
pub open spec fn port_in(t: Seq<u8>, from: int, hi: int) -> Option<u16> {
    let end = field_end(t, from, hi);
    match last_colon(t, from, end) {
        Some(c) => match number(t, c + 1, end, u16::MAX as nat) {
            Some(port) => Some(port as u16),
            None => None,
        },
        None => None,
    }
}

/// The port that the line between `lo` and `hi` gives for `pid`.
pub open spec fn line_port(t: Seq<u8>, lo: int, hi: int, pid: u32) -> Option<u16> {
    let count = fields_before(t, lo, hi);
    if occurs(t, lo, hi, listening()) && occurs(t, lo, hi, tcp()) && count >= 5 {
        let last = field_at(t, lo, hi, (count - 1) as nat);
        if number(t, last, field_end(t, last, hi), u32::MAX as nat) == Some(pid as nat) {
            port_in(t, field_at(t, lo, hi, 1), hi)
        } else {
            None
        }
    } else {
        None
    }
}

/// Where the line ends that holds place `j`: at the first line feed from
/// `j` on, or at the end of the text.
pub open spec fn line_end(t: Seq<u8>, j: int) -> int
    decreases t.len() - j,
{
    if j >= t.len() || t[j] == LINE_FEED {
        j
    } else {
        line_end(t, j + 1)
    }
}

/// The port that the first line from `from` on gives for `pid`.
pub open spec fn port_from(t: Seq<u8>, from: int, pid: u32) -> Option<u16>
    decreases t.len() - from,
{
    if from < 0 || from >= t.len() {
        None
    } else {
        let end = line_end(t, from);
        match line_port(t, from, end, pid) {
            Some(port) => Some(port),
            None => if from <= end < t.len() {
                port_from(t, end + 1, pid)
            } else {
                None
            },
        }
    }
}

/// The pid that the line between `lo` and `hi` names: the number it holds
/// once the white space round it is taken off.
pub open spec fn line_pid(t: Seq<u8>, lo: int, hi: int) -> Option<u32> {
    let from = first_mark(t, lo, hi);
    let to = last_mark(t, lo, hi);
    match number(t, from, to, u32::MAX as nat) {
        Some(pid) => Some(pid as u32),
        None => None,
    }
}

/// The first place from `lo` on that holds no white space, or `hi`.
pub open spec fn first_mark(t: Seq<u8>, lo: int, hi: int) -> int
    decreases hi - lo,
{
    if lo >= hi || !is_space(t[lo]) {
        lo
    } else {
        first_mark(t, lo + 1, hi)
    }
}

/// The place after the last one before `hi` that holds no white space, or
/// `lo`.
pub open spec fn last_mark(t: Seq<u8>, lo: int, hi: int) -> int
    decreases hi - lo,
{
    if hi <= lo || !is_space(t[hi - 1]) {
        hi
    } else {
        last_mark(t, lo, hi - 1)
    }
}

/// The port of the first child, in the order of `children` from `from` on,
/// for which `listing` gives one. Each line of `children` that names a pid
/// names a child.
pub open spec fn child_port_from(listing: Seq<u8>, children: Seq<u8>, from: int) -> Option<u16>
    decreases children.len() - from,
{
    if from < 0 || from >= children.len() {
        None
    } else {
        let end = line_end(children, from);
        let found = match line_pid(children, from, end) {
            Some(child) => port_from(listing, 0, child),
            None => None,
        };
        match found {
            Some(port) => Some(port),
            None => if from <= end < children.len() {
                child_port_from(listing, children, end + 1)
            } else {
                None
            },
        }
    }
}

/// More places hold no fewer field starts.
pub proof fn lemma_fields_grow(t: Seq<u8>, lo: int, a: int, b: int)
    requires
        a <= b,
    ensures
        fields_before(t, lo, a) <= fields_before(t, lo, b),
    decreases b - a,
{
    if a < b {
        lemma_fields_grow(t, lo, a, b - 1);
    }
}

/// A field number belongs to one field.
pub proof fn lemma_field_at(t: Seq<u8>, lo: int, hi: int, n: nat, j: int)
    requires
        is_field(t, lo, hi, n, j),
    ensures
        field_at(t, lo, hi, n) == j,
{
    let other = field_at(t, lo, hi, n);
    if other < j {
        lemma_fields_grow(t, lo, other + 1, j);
    } else if j < other {
        lemma_fields_grow(t, lo, j + 1, other);
    }
}

/// Longer digit strings spell no smaller numbers.
pub proof fn lemma_digits_grow(t: Seq<u8>, lo: int, a: int, b: int)
    requires
        lo <= a <= b,
        all_digits(t, lo, b),
    ensures
        digits_value(t, lo, a) <= digits_value(t, lo, b),
    decreases b - a,
{
    if a < b {
        lemma_digits_grow(t, lo, a, b - 1);
        assert(is_digit(t[b - 1]));
    }
}

/// Finds the end of the line that starts at `from`.
fn end_of_line(text: &[u8], from: usize) -> (end: usize)
    requires
        from <= text@.len(),
    ensures
        end == line_end(text@, from as int),
        from <= end <= text@.len(),
{
    let mut end = from;
    while end < text.len() && text[end] != LINE_FEED
        invariant
            from <= end <= text@.len(),
            line_end(text@, from as int) == line_end(text@, end as int),
        decreases text@.len() - end,
    {
        end += 1;
    }
    end
}

/// Whether `pattern` occurs in `text` between `lo` and `hi`.
fn contains(text: &[u8], lo: usize, hi: usize, pattern: &[u8]) -> (found: bool)
    requires
        lo <= hi <= text@.len(),
    ensures
        found == occurs(text@, lo as int, hi as int, pattern@),
{
    let m = pattern.len();
    if hi - lo < m {
        return false;
    }
    let mut k: usize = lo;
    while k <= hi - m
        invariant
            lo <= k,
            k <= hi,
            m == pattern@.len(),
            hi <= text@.len(),
            hi - lo >= m,
            forall|e: int| lo <= e < k ==> !#[trigger] stands_at(text@, e, pattern@),
        decreases hi - k,
    {
        let mut i: usize = 0;
        while i < m && text[k + i] == pattern[i]
            invariant
                i <= m,
                m == pattern@.len(),
                k + m <= hi,
                hi <= text@.len(),
                forall|e: int| 0 <= e < i ==> #[trigger] text@[k + e] == pattern@[e],
            decreases m - i,
        {
            i += 1;
        }
        if i == m {
            assert(stands_at(text@, k as int, pattern@));
            return true;
        }
        assert(!stands_at(text@, k as int, pattern@)) by {
            assert(text@[k + i] != pattern@[i as int]);
        }
        k += 1;
    }
    false
}

/// Finds the end of the field that holds place `j`.
fn end_of_field(text: &[u8], j: usize, hi: usize) -> (end: usize)
    requires
        j <= hi <= text@.len(),
    ensures
        end == field_end(text@, j as int, hi as int),
        j <= end <= hi,
{
    let mut end = j;
    while end < hi && !space(text[end])
        invariant
            j <= end <= hi,
            hi <= text@.len(),
            field_end(text@, j as int, hi as int) == field_end(text@, end as int, hi as int),
        decreases hi - end,
    {
        end += 1;
    }
    end
}

/// Whether a byte is ASCII white space.
fn space(b: u8) -> (yes: bool)
    ensures
        yes == is_space(b),
{
    b == 32 || (9 <= b && b <= 13)
}

/// Reads the number written between `lo` and `hi`, if it is no more than
/// `max`.
fn read_number(text: &[u8], lo: usize, hi: usize, max: u64) -> (value: Option<u64>)
    requires
        lo <= hi <= text@.len(),
        max <= u32::MAX,
    ensures
        match value {
            Some(n) => number(text@, lo as int, hi as int, max as nat) == Some(n as nat),
            None => number(text@, lo as int, hi as int, max as nat) is None,
        },
{
    let from = if lo < hi && text[lo] == PLUS {
        lo + 1
    } else {
        lo
    };
    if from >= hi {
        return None;
    }
    let mut value: u64 = 0;
    let mut i: usize = from;
    while i < hi
        invariant
            lo <= from <= i <= hi,
            from == if lo < hi && text@[lo as int] == PLUS {
                lo + 1
            } else {
                lo as int
            },
            hi <= text@.len(),
            max <= u32::MAX,
            all_digits(text@, from as int, i as int),
            value == digits_value(text@, from as int, i as int),
            value <= max,
        decreases hi - i,
    {
        let b = text[i];
        if b < ZERO || b > NINE {
            assert(!all_digits(text@, from as int, hi as int)) by {
                assert(!is_digit(text@[i as int]));
            }
            return None;
        }
        let next = value * 10 + (b - ZERO) as u64;
        assert(next == digits_value(text@, from as int, i + 1));
        if next > max {
            proof {
                if all_digits(text@, from as int, hi as int) {
                    lemma_digits_grow(text@, from as int, i + 1, hi as int);
                }
            }
            return None;
        }
        value = next;
        i += 1;
    }
    Some(value)
}

/// Finds the last colon between `lo` and `hi`.
fn find_last_colon(text: &[u8], lo: usize, hi: usize) -> (found: Option<usize>)
    requires
        lo <= hi <= text@.len(),
    ensures
        match found {
            Some(c) => last_colon(text@, lo as int, hi as int) == Some(c as int) && lo <= c < hi,
            None => last_colon(text@, lo as int, hi as int) is None,
        },
{
    let mut end = hi;
    while end > lo
        invariant
            lo <= end <= hi,
            hi <= text@.len(),
            last_colon(text@, lo as int, hi as int) == last_colon(text@, lo as int, end as int),
        decreases end - lo,
    {
        if text[end - 1] == COLON {
            return Some(end - 1);
        }
        end -= 1;
    }
    None
}

/// Reads the port that the line between `lo` and `hi` gives for `pid`.
fn port_of_line(text: &[u8], lo: usize, hi: usize, pid: u32) -> (port: Option<u16>)
    requires
        lo <= hi <= text@.len(),
    ensures
        port == line_port(text@, lo as int, hi as int, pid),
{
    let listening_bytes: [u8; 9] = [76, 73, 83, 84, 69, 78, 73, 78, 71];
    let tcp_bytes: [u8; 3] = [84, 67, 80];
    assert(listening_bytes@ =~= listening());
    assert(tcp_bytes@ =~= tcp());
    if !contains(text, lo, hi, listening_bytes.as_slice()) {
        return None;
    }
    if !contains(text, lo, hi, tcp_bytes.as_slice()) {
        return None;
    }
    let mut count: usize = 0;
    let mut second: usize = lo;
    let mut last: usize = lo;
    let mut j: usize = lo;
    while j < hi
        invariant
            lo <= j <= hi,
            hi <= text@.len(),
            count == fields_before(text@, lo as int, j as int),
            count <= j - lo,
            count >= 1 ==> is_field(text@, lo as int, hi as int, (count - 1) as nat, last as int)
                && last < j,
            count >= 2 ==> is_field(text@, lo as int, hi as int, 1, second as int) && second < j,
        decreases hi - j,
    {
        let starts = !space(text[j]) && (j == lo || space(text[j - 1]));
        if starts {
            if count == 1 {
                second = j;
            }
            last = j;
            count += 1;
        }
        j += 1;
    }
    if count < 5 {
        return None;
    }
    proof {
        lemma_field_at(text@, lo as int, hi as int, (count - 1) as nat, last as int);
        lemma_field_at(text@, lo as int, hi as int, 1, second as int);
    }
    let last_end = end_of_field(text, last, hi);
    match read_number(text, last, last_end, 0xffff_ffff) {
        Some(owner) => {
            if owner != pid as u64 {
                return None;
            }
        },
        None => {
            return None;
        },
    }
    let second_end = end_of_field(text, second, hi);
    match find_last_colon(text, second, second_end) {
        Some(c) => match read_number(text, c + 1, second_end, 0xffff) {
            Some(port) => Some(port as u16),
            None => None,
        },
        None => None,
    }
}

/// The port that `listing` gives for `pid`: that of the first line that
/// counts, is owned by `pid` and writes a port.
pub fn listening_port(listing: &[u8], pid: u32) -> (port: Option<u16>)
    ensures
        port == port_from(listing@, 0, pid),
{
    let mut from: usize = 0;
    while from < listing.len()
        invariant
            from <= listing@.len(),
            port_from(listing@, 0, pid) == port_from(listing@, from as int, pid),
        decreases listing@.len() - from,
    {
        let end = end_of_line(listing, from);
        match port_of_line(listing, from, end, pid) {
            Some(port) => {
                return Some(port);
            },
            None => {},
        }
        if end >= listing.len() {
            return None;
        }
        from = end + 1;
    }
    None
}

/// Reads the pid that the line between `lo` and `hi` names.
fn pid_of_line(text: &[u8], lo: usize, hi: usize) -> (pid: Option<u32>)
    requires
        lo <= hi <= text@.len(),
    ensures
        pid == line_pid(text@, lo as int, hi as int),
{
    let mut from = lo;
    while from < hi && space(text[from])
        invariant
            lo <= from <= hi,
            hi <= text@.len(),
            first_mark(text@, lo as int, hi as int) == first_mark(text@, from as int, hi as int),
        decreases hi - from,
    {
        from += 1;
    }
    let mut to = hi;
    while to > lo && space(text[to - 1])
        invariant
            lo <= to <= hi,
            hi <= text@.len(),
            last_mark(text@, lo as int, hi as int) == last_mark(text@, lo as int, to as int),
        decreases to - lo,
    {
        to -= 1;
    }
    if from > to {
        assert(number(text@, from as int, to as int, u32::MAX as nat) is None);
        return None;
    }
    match read_number(text, from, to, 0xffff_ffff) {
        Some(pid) => Some(pid as u32),
        None => None,
    }
}

/// The port of the first child process for which `listing` gives one. The
/// children are those that `children` names, one pid to a line; a line that
/// names none is passed over.
pub fn child_port(listing: &[u8], children: &[u8]) -> (port: Option<u16>)
    ensures
        port == child_port_from(listing@, children@, 0),
{
    let mut from: usize = 0;
    while from < children.len()
        invariant
            from <= children@.len(),
            child_port_from(listing@, children@, 0) == child_port_from(
                listing@,
                children@,
                from as int,
            ),
        decreases children@.len() - from,
    {
        let end = end_of_line(children, from);
        match pid_of_line(children, from, end) {
            Some(child) => match listening_port(listing, child) {
                Some(port) => {
                    return Some(port);
                },
                None => {},
            },
            None => {},
        }
        if end >= children.len() {
            return None;
        }
        from = end + 1;
    }
    None
}

} // verus!
