//! Local-network service announcements: the NOTIFY datagram format, and the
//! listener settings for one discovery port.
use crate::text::{
    chars_of, eq_ignore_case, find, find_from, find_in_range, parse_u16, parse_u16_range,
    range_eq_ignore_case, string_of, trim,
    trim_range,
};
use vstd::prelude::*;

verus! {

/// One parsed service announcement.
pub struct SsdpMessage {
    pub source_address: String,
    pub source_port: u16,
    pub server: String,
    pub location: String,
    pub nt: String,
    pub usn: String,
    pub cache_control: String,
    pub custom_fields: Vec<(String, String)>,
}

/// The contents of an announcement as sequences of characters.
pub struct SsdpMessageView {
    pub source_address: Seq<char>,
    pub source_port: u16,
    pub server: Seq<char>,
    pub location: Seq<char>,
    pub nt: Seq<char>,
    pub usn: Seq<char>,
    pub cache_control: Seq<char>,
    pub custom_fields: Seq<(Seq<char>, Seq<char>)>,
}

pub open spec fn field_pairs(v: Seq<(String, String)>) -> Seq<(Seq<char>, Seq<char>)> {
    v.map_values(|p: (String, String)| (p.0@, p.1@))
}

impl View for SsdpMessage {
    type V = SsdpMessageView;

    open spec fn view(&self) -> SsdpMessageView {
        SsdpMessageView {
            source_address: self.source_address@,
            source_port: self.source_port,
            server: self.server@,
            location: self.location@,
            nt: self.nt@,
            usn: self.usn@,
            cache_control: self.cache_control@,
            custom_fields: field_pairs(self.custom_fields@),
        }
    }
}

/// Why an announcement could not be read.
#[derive(Debug, Clone, Copy, PartialEq, Eq, Structural)]
pub enum SsdpParseError {
    /// A non-empty line holds no `:` between header name and value.
    MissingSeparator,
    /// The `host` header names a port that is not a 16-bit decimal number.
    InvalidPort,
}

/// An announcement with every field empty.
pub open spec fn empty_message() -> SsdpMessageView {
    SsdpMessageView {
        source_address: Seq::empty(),
        source_port: 0,
        server: Seq::empty(),
        location: Seq::empty(),
        nt: Seq::empty(),
        usn: Seq::empty(),
        cache_control: Seq::empty(),
        custom_fields: Seq::empty(),
    }
}

/// A line without the carriage return that precedes its newline.
pub open spec fn strip_cr(l: Seq<char>) -> Seq<char> {
    if l.len() > 0 && l.last() == '\r' {
        l.drop_last()
    } else {
        l
    }
}

/// The lines of `s` from index `i` on, as `str::lines` yields them: split at
/// `\n`, a `\r` just before a `\n` dropped, no empty line after a final `\n`.
pub open spec fn lines_from(s: Seq<char>, i: int) -> Seq<Seq<char>>
    decreases s.len() - i,
    via lines_from_decreases
{
    if i < 0 || i >= s.len() {
        Seq::empty()
    } else {
        let e = find_from(s, '\n', i);
        if e < s.len() {
            seq![strip_cr(s.subrange(i, e))] + lines_from(s, e + 1)
        } else {
            seq![s.subrange(i, e)]
        }
    }
}

#[via_fn]
proof fn lines_from_decreases(s: Seq<char>, i: int) {
    if 0 <= i < s.len() {
        lemma_find_from_bounds(s, '\n', i);
    }
}

pub proof fn lemma_find_from_bounds(s: Seq<char>, c: char, i: int)
    requires
        0 <= i <= s.len(),
    ensures
        i <= find_from(s, c, i) <= s.len(),
    decreases s.len() - i,
{
    if i < s.len() && s[i] != c {
        lemma_find_from_bounds(s, c, i + 1);
    }
}

/// The announcement after one header line, or the error that the line raises.
pub open spec fn apply_header(m: SsdpMessageView, header: Seq<char>, value: Seq<char>) -> Result<
    SsdpMessageView,
    SsdpParseError,
> {
    if eq_ignore_case(header, "host"@) {
        let p = find(value, ':');
        if p >= value.len() {
            Ok(m)
        } else {
            match parse_u16(value.subrange(p + 1, value.len() as int)) {
                Some(port) => Ok(
                    SsdpMessageView { source_address: value.subrange(0, p), source_port: port, ..m },
                ),
                None => Err(SsdpParseError::InvalidPort),
            }
        }
    } else if eq_ignore_case(header, "server"@) {
        Ok(SsdpMessageView { server: value, ..m })
    } else if eq_ignore_case(header, "location"@) {
        Ok(SsdpMessageView { location: value, ..m })
    } else if eq_ignore_case(header, "nt"@) {
        Ok(SsdpMessageView { nt: value, ..m })
    } else if eq_ignore_case(header, "usn"@) {
        Ok(SsdpMessageView { usn: value, ..m })
    } else if eq_ignore_case(header, "cache-control"@) {
        Ok(SsdpMessageView { cache_control: value, ..m })
    } else {
        Ok(SsdpMessageView { custom_fields: m.custom_fields.push((header, value)), ..m })
    }
}

/// The announcement after one line that follows the request line: an empty
/// line leaves it as it is; any other line is `name: value`, both trimmed.
pub open spec fn apply_line(m: SsdpMessageView, line: Seq<char>) -> Result<
    SsdpMessageView,
    SsdpParseError,
> {
    if line.len() == 0 {
        Ok(m)
    } else {
        let c = find(line, ':');
        if c >= line.len() {
            Err(SsdpParseError::MissingSeparator)
        } else {
            apply_header(
                m,
                trim(line.subrange(0, c)),
                trim(line.subrange(c + 1, line.len() as int)),
            )
        }
    }
}

/// The lines applied in order to an empty announcement; the first error stops.
pub open spec fn parse_lines(ls: Seq<Seq<char>>) -> Result<SsdpMessageView, SsdpParseError>
    decreases ls.len(),
{
    if ls.len() == 0 {
        Ok(empty_message())
    } else {
        match parse_lines(ls.drop_last()) {
            Ok(m) => apply_line(m, ls.last()),
            Err(e) => Err(e),
        }
    }
}

/// What a datagram's text parses to: its first line, the request or NOTIFY
/// line, is ignored whatever it holds; the lines after it are applied in order.
pub open spec fn parse_message(s: Seq<char>) -> Result<SsdpMessageView, SsdpParseError> {
    let ls = lines_from(s, 0);
    if ls.len() == 0 {
        Ok(empty_message())
    } else {
        parse_lines(ls.drop_first())
    }
}

/// Index of the first `\n` in `v` at or after `i`, or the length of `v`.
fn next_newline(v: &Vec<char>, i: usize) -> (r: usize)
    requires
        i <= v@.len(),
    ensures
        r == find_from(v@, '\n', i as int),
        i <= r <= v@.len(),
{
    proof {
        lemma_find_from_bounds(v@, '\n', i as int);
    }
    let mut j = i;
    while j < v.len() && v[j] != '\n'
        invariant
            i <= j <= v@.len(),
            find_from(v@, '\n', i as int) == find_from(v@, '\n', j as int),
        decreases v@.len() - j,
    {
        j = j + 1;
    }
    j
}

impl SsdpMessage {
    /// An announcement with every field empty.
    pub fn new() -> (r: SsdpMessage)
        ensures
            r@ == empty_message(),
    {
        let r = SsdpMessage {
            source_address: String::new(),
            source_port: 0,
            server: String::new(),
            location: String::new(),
            nt: String::new(),
            usn: String::new(),
            cache_control: String::new(),
            custom_fields: Vec::new(),
        };
        assert(field_pairs(r.custom_fields@) =~= Seq::empty());
        r
    }

    /// Applies the header `v[h0..h1]` with value `v[a0..a1]`.
    fn apply_header_exec(
        &mut self,
        message: &str,
        v: &Vec<char>,
        h0: usize,
        h1: usize,
        a0: usize,
        a1: usize,
    ) -> (r: Result<(), SsdpParseError>)
        requires
            v@ == message@,
            h0 <= h1 <= v@.len(),
            a0 <= a1 <= v@.len(),
        ensures
            match r {
                Ok(()) => apply_header(
                    old(self)@,
                    v@.subrange(h0 as int, h1 as int),
                    v@.subrange(a0 as int, a1 as int),
                ) == Ok::<SsdpMessageView, SsdpParseError>(final(self)@),
                Err(e) => apply_header(
                    old(self)@,
                    v@.subrange(h0 as int, h1 as int),
                    v@.subrange(a0 as int, a1 as int),
                ) == Err::<SsdpMessageView, SsdpParseError>(e),
            },
    {
        let ghost value = v@.subrange(a0 as int, a1 as int);
        if range_eq_ignore_case(v, h0, h1, "host") {
            let p = find_in_range(v, ':', a0, a1);
            if p == a1 {
                return Ok(());
            }
            assert(value.subrange(find(value, ':') + 1, value.len() as int) =~= v@.subrange(
                p + 1,
                a1 as int,
            ));
            assert(value.subrange(0, find(value, ':')) =~= v@.subrange(a0 as int, p as int));
            match parse_u16_range(v, p + 1, a1) {
                Some(port) => {
                    self.source_address = string_of(message, a0, p);
                    self.source_port = port;
                    Ok(())
                },
                None => Err(SsdpParseError::InvalidPort),
            }
        } else if range_eq_ignore_case(v, h0, h1, "server") {
            self.server = string_of(message, a0, a1);
            Ok(())
        } else if range_eq_ignore_case(v, h0, h1, "location") {
            self.location = string_of(message, a0, a1);
            Ok(())
        } else if range_eq_ignore_case(v, h0, h1, "nt") {
            self.nt = string_of(message, a0, a1);
            Ok(())
        } else if range_eq_ignore_case(v, h0, h1, "usn") {
            self.usn = string_of(message, a0, a1);
            Ok(())
        } else if range_eq_ignore_case(v, h0, h1, "cache-control") {
            self.cache_control = string_of(message, a0, a1);
            Ok(())
        } else {
            let name = string_of(message, h0, h1);
            let val = string_of(message, a0, a1);
            let ghost before = self.custom_fields@;
            self.custom_fields.push((name, val));
            assert(field_pairs(self.custom_fields@) =~= field_pairs(before).push(
                (v@.subrange(h0 as int, h1 as int), value),
            ));
            Ok(())
        }
    }

    /// Applies the line `v[lo..hi]`.
    fn apply_line_exec(&mut self, message: &str, v: &Vec<char>, lo: usize, hi: usize) -> (r:
        Result<(), SsdpParseError>)
        requires
            v@ == message@,
            lo <= hi <= v@.len(),
        ensures
            match r {
                Ok(()) => apply_line(old(self)@, v@.subrange(lo as int, hi as int)) == Ok::<
                    SsdpMessageView,
                    SsdpParseError,
                >(final(self)@),
                Err(e) => apply_line(old(self)@, v@.subrange(lo as int, hi as int)) == Err::<
                    SsdpMessageView,
                    SsdpParseError,
                >(e),
            },
    {
        let ghost line = v@.subrange(lo as int, hi as int);
        if lo == hi {
            return Ok(());
        }
        let c = find_in_range(v, ':', lo, hi);
        if c == hi {
            return Err(SsdpParseError::MissingSeparator);
        }
        assert(line.subrange(0, c - lo) =~= v@.subrange(lo as int, c as int));
        assert(line.subrange(c - lo + 1, line.len() as int) =~= v@.subrange(c + 1, hi as int));
        let (h0, h1) = trim_range(v, lo, c);
        let (a0, a1) = trim_range(v, c + 1, hi);
        self.apply_header_exec(message, v, h0, h1, a0, a1)
    }

    /// Parses the text of one NOTIFY datagram: the first line is skipped,
    /// every later non-empty line is a header.
    pub fn from_message(message: &str) -> (r: Result<SsdpMessage, SsdpParseError>)
        ensures
            match r {
                Ok(m) => parse_message(message@) == Ok::<SsdpMessageView, SsdpParseError>(m@),
                Err(e) => parse_message(message@) == Err::<SsdpMessageView, SsdpParseError>(e),
            },
    {
        let v = chars_of(message);
        let n = v.len();
        let mut m = SsdpMessage::new();
        let mut i: usize = 0;
        let mut first = true;
        let ghost mut done: Seq<Seq<char>> = Seq::empty();
        while i < n
            invariant
                i <= n == v@.len(),
                v@ == message@,
                lines_from(v@, 0) == done + lines_from(v@, i as int),
                first <==> done.len() == 0,
                first ==> m@ == empty_message(),
                !first ==> parse_lines(done.drop_first()) == Ok::<SsdpMessageView, SsdpParseError>(
                    m@,
                ),
            decreases n - i,
        {
            let e = next_newline(&v, i);
            let hi = if e < n && e > i && v[e - 1] == '\r' {
                e - 1
            } else {
                e
            };
            let next = if e < n {
                e + 1
            } else {
                n
            };
            let ghost line = v@.subrange(i as int, hi as int);
            proof {
                if e < n {
                    assert(strip_cr(v@.subrange(i as int, e as int)) =~= line);
                } else {
                    assert(lines_from(v@, next as int) =~= Seq::empty());
                }
                assert(lines_from(v@, i as int) =~= seq![line] + lines_from(v@, next as int));
                assert(lines_from(v@, 0) =~= done.push(line) + lines_from(v@, next as int));
            }
            if first {
                first = false;
                proof {
                    assert(done.push(line).drop_first() =~= Seq::<Seq<char>>::empty());
                }
            } else {
                proof {
                    assert(done.push(line).drop_first() =~= done.drop_first().push(line));
                    assert(done.drop_first().push(line).drop_last() =~= done.drop_first());
                }
                let step = m.apply_line_exec(message, &v, i, hi);
                match step {
                    Ok(()) => {},
                    Err(err) => {
                        proof {
                            let rest = lines_from(v@, next as int);
                            lemma_parse_lines_error_stays(done.drop_first().push(line), rest, err);
                            assert(lines_from(v@, 0).drop_first() =~= done.drop_first().push(line)
                                + rest);
                        }
                        return Err(err);
                    },
                }
            }
            proof {
                done = done.push(line);
            }
            i = next;
        }
        assert(lines_from(v@, i as int) =~= Seq::empty());
        assert(done + Seq::<Seq<char>>::empty() =~= done);
        Ok(m)
    }
}

/// Once some lines fail to parse, no lines after them change that.
pub proof fn lemma_parse_lines_error_stays(
    ls: Seq<Seq<char>>,
    rest: Seq<Seq<char>>,
    e: SsdpParseError,
)
    requires
        parse_lines(ls) == Err::<SsdpMessageView, SsdpParseError>(e),
    ensures
        parse_lines(ls + rest) == Err::<SsdpMessageView, SsdpParseError>(e),
    decreases rest.len(),
{
    if rest.len() == 0 {
        assert(ls + rest =~= ls);
    } else {
        lemma_parse_lines_error_stays(ls, rest.drop_last(), e);
        assert((ls + rest).drop_last() =~= ls + rest.drop_last());
    }
}

/// The settings of a listener on one discovery port.
pub struct SsdpListener {
    pub port: u16,
}

impl SsdpListener {
    pub fn new(port: u16) -> (r: SsdpListener)
        ensures
            r.port == port,
    {
        SsdpListener { port }
    }
}

} // verus!
