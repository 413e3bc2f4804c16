//! The textual event grammar: a raw notification payload, optionally
//! prefixed with a priority marker `<n>`, whose first
//! whitespace-delimited token names the event and whose remaining
//! tokens are its arguments.

use vstd::prelude::*;
use crate::mac::{MacAddr, mac_valid, mac_octets, lemma_mac_no_space};

verus! {

/// Why a single event line could not be parsed.
#[derive(Debug, Clone, Copy, PartialEq, Eq, Structural)]
pub enum ParseError {
    /// The identifier region is empty.
    EmptyIdentifier,
    /// A station event carried a malformed hardware address.
    InvalidAddress,
}

/// The mathematical value of a parsed event.
pub enum EventModel {
    StationConnected { mac: Seq<u8> },
    StationDisconnected { mac: Seq<u8> },
    Other { ident: Seq<char>, args: Seq<Seq<char>> },
}

/// A parsed event notification.
#[derive(Debug, Clone, PartialEq, Eq)]
pub enum Event {
    /// A station joined, identified by its hardware address.
    StationConnected { mac: MacAddr },
    /// A station left, identified by its hardware address.
    StationDisconnected { mac: MacAddr },
    /// Any other event: its identifier and its arguments in order.
    Other { ident: String, args: Vec<String> },
}

impl View for Event {
    type V = EventModel;

    open spec fn view(&self) -> EventModel {
        match self {
            Event::StationConnected { mac } => EventModel::StationConnected { mac: mac@ },
            Event::StationDisconnected { mac } => EventModel::StationDisconnected { mac: mac@ },
            Event::Other { ident, args } => EventModel::Other {
                ident: ident@,
                args: args.deep_view(),
            },
        }
    }
}

impl Event {
    /// Well-formed: station events hold exactly six octets.
    pub open spec fn wf(&self) -> bool {
        match self {
            Event::StationConnected { mac } => mac.wf(),
            Event::StationDisconnected { mac } => mac.wf(),
            Event::Other { .. } => true,
        }
    }
}

/// The first position at or after `i` holding `c`, or the length of
/// `s` if there is none.
pub open spec fn find_from(s: Seq<char>, c: char, i: int) -> int
    decreases s.len() - i,
{
    if i >= s.len() {
        s.len() as int
    } else if s[i] == c {
        i
    } else {
        find_from(s, c, i + 1)
    }
}

/// `find_from` stays within bounds, lands on `c`, and skips nothing.
pub proof fn lemma_find_from(s: Seq<char>, c: char, i: int)
    requires
        0 <= i <= s.len(),
    ensures
        i <= find_from(s, c, i) <= s.len(),
        find_from(s, c, i) < s.len() ==> s[find_from(s, c, i)] == c,
        forall|k: int| i <= k < find_from(s, c, i) ==> s[k] != c,
    decreases s.len() - i,
{
    if i < s.len() && s[i] != c {
        lemma_find_from(s, c, i + 1);
    }
}

/// `find_from` is pinned down by a witness: `c` nowhere before `j`,
/// and at `j` unless `j` is the length.
pub proof fn lemma_find_from_is(s: Seq<char>, c: char, i: int, j: int)
    requires
        0 <= i <= j <= s.len(),
        forall|k: int| i <= k < j ==> s[k] != c,
        j < s.len() ==> s[j] == c,
    ensures
        find_from(s, c, i) == j,
    decreases j - i,
{
    if i < j {
        lemma_find_from_is(s, c, i + 1, j);
    }
}

/// Searching a suffix is searching the whole with the base added.
pub proof fn lemma_find_shift(s: Seq<char>, c: char, base: int, i: int)
    requires
        0 <= base,
        0 <= i,
        base + i <= s.len(),
    ensures
        find_from(s, c, base + i) == base + find_from(
            s.subrange(base, s.len() as int),
            c,
            i,
        ),
    decreases s.len() - base - i,
{
    if base + i < s.len() && s[base + i] != c {
        lemma_find_shift(s, c, base, i + 1);
    }
}

/// The tokens of `s`, split at every single space. The result always
/// holds at least one token; a token may be empty.
pub open spec fn split_spaces(s: Seq<char>) -> Seq<Seq<char>>
    decreases s.len(),
{
    if s.len() == 0 {
        seq![Seq::<char>::empty()]
    } else if s[0] == ' ' {
        seq![Seq::<char>::empty()] + split_spaces(s.drop_first())
    } else {
        let rest = split_spaces(s.drop_first());
        seq![seq![s[0]] + rest[0]] + rest.drop_first()
    }
}

/// A split always yields at least one token.
pub proof fn lemma_split_len(s: Seq<char>)
    ensures
        split_spaces(s).len() >= 1,
    decreases s.len(),
{
    if s.len() > 0 {
        lemma_split_len(s.drop_first());
    }
}

/// How a split decomposes at the first space: the head token is the
/// text before it, and the tail tokens are the split of the text
/// after it.
pub proof fn lemma_split_first(s: Seq<char>)
    ensures
        split_spaces(s)[0] == s.take(find_from(s, ' ', 0)),
        find_from(s, ' ', 0) == s.len() ==> split_spaces(s) == seq![s],
        find_from(s, ' ', 0) < s.len() ==> split_spaces(s) == seq![
            s.take(find_from(s, ' ', 0)),
        ] + split_spaces(s.subrange(find_from(s, ' ', 0) + 1, s.len() as int)),
    decreases s.len(),
{
    lemma_find_from(s, ' ', 0);
    let j = find_from(s, ' ', 0);
    if s.len() == 0 {
        assert(split_spaces(s)[0] =~= s.take(0));
        assert(split_spaces(s) =~~= seq![s]);
    } else if s[0] == ' ' {
        assert(j == 0);
        assert(split_spaces(s)[0] =~= s.take(0));
        assert(s.drop_first() =~= s.subrange(1, s.len() as int));
        assert(split_spaces(s) =~~= seq![s.take(0)] + split_spaces(
            s.subrange(1, s.len() as int),
        ));
    } else {
        let t = s.drop_first();
        lemma_split_first(t);
        lemma_split_len(t);
        assert(t =~= s.subrange(1, s.len() as int));
        lemma_find_shift(s, ' ', 1, 0);
        let j2 = find_from(t, ' ', 0);
        assert(j == 1 + j2);
        let rest = split_spaces(t);
        assert(split_spaces(s)[0] == seq![s[0]] + rest[0]);
        assert(seq![s[0]] + t.take(j2) =~= s.take(j));
        if j == s.len() {
            assert(rest == seq![t]);
            assert(seq![s[0]] + t =~= s);
            assert(rest.drop_first() =~~= Seq::<Seq<char>>::empty());
            assert(split_spaces(s) =~~= seq![s]);
        } else {
            assert(t.subrange(j2 + 1, t.len() as int) =~= s.subrange(j + 1, s.len() as int));
            assert(rest.drop_first() =~~= split_spaces(s.subrange(j + 1, s.len() as int)));
            assert(split_spaces(s) =~~= seq![s.take(j)] + split_spaces(
                s.subrange(j + 1, s.len() as int),
            ));
        }
    }
}

/// Where the identifier region begins: after the first `>` when the
/// payload opens with `<`, at the start otherwise. A payload that
/// opens with `<` but holds no `>` is taken whole.
pub open spec fn strip_start(s: Seq<char>) -> int {
    if s.len() > 0 && s[0] == '<' && find_from(s, '>', 0) < s.len() {
        find_from(s, '>', 0) + 1
    } else {
        0
    }
}

/// The tokens of an event line, after the marker is stripped.
pub open spec fn event_tokens(s: Seq<char>) -> Seq<Seq<char>> {
    split_spaces(s.subrange(strip_start(s), s.len() as int))
}

/// What parsing an event line yields, for every input.
pub open spec fn spec_parse(s: Seq<char>) -> Result<EventModel, ParseError> {
    let toks = event_tokens(s);
    let ident = toks[0];
    if ident.len() == 0 {
        Err(ParseError::EmptyIdentifier)
    } else if (ident == "AP-STA-CONNECTED"@ || ident == "AP-STA-DISCONNECTED"@)
        && toks.len() >= 2 {
        if mac_valid(toks[1]) {
            if ident == "AP-STA-CONNECTED"@ {
                Ok(EventModel::StationConnected { mac: mac_octets(toks[1]) })
            } else {
                Ok(EventModel::StationDisconnected { mac: mac_octets(toks[1]) })
            }
        } else {
            Err(ParseError::InvalidAddress)
        }
    } else {
        Ok(EventModel::Other { ident, args: toks.drop_first() })
    }
}

/// The first position at or after `from` holding `c`, or the length
/// of `s` if there is none.
fn find_char(s: &str, c: char, from: usize) -> (r: usize)
    requires
        from <= s@.len(),
    ensures
        r == find_from(s@, c, from as int),
        from <= r <= s@.len(),
        r < s@.len() ==> s@[r as int] == c,
        forall|k: int| from <= k < r ==> s@[k] != c,
{
    let n = s.unicode_len();
    let mut i = from;
    while i < n
        invariant
            from <= i <= n,
            n == s@.len(),
            forall|k: int| from <= k < i ==> s@[k] != c,
        decreases n - i,
    {
        if s.get_char(i) == c {
            proof {
                lemma_find_from_is(s@, c, from as int, i as int);
            }
            return i;
        }
        i += 1;
    }
    proof {
        lemma_find_from_is(s@, c, from as int, n as int);
    }
    n
}

/// Whether two strings hold the same characters.
pub(crate) fn str_eq(a: &str, b: &str) -> (r: bool)
    ensures
        r == (a@ == b@),
{
    let na = a.unicode_len();
    let nb = b.unicode_len();
    if na != nb {
        return false;
    }
    let mut i: usize = 0;
    while i < na
        invariant
            i <= na,
            na == a@.len(),
            na == b@.len(),
            forall|k: int| 0 <= k < i ==> a@[k] == b@[k],
        decreases na - i,
    {
        if a.get_char(i) != b.get_char(i) {
            return false;
        }
        i += 1;
    }
    proof {
        assert(a@ =~= b@);
    }
    true
}

impl Event {
    /// Parses one raw event line.
    ///
    /// A leading `<n>` marker is stripped (up to and including the
    /// first `>`). The first space-delimited token of the rest is the
    /// identifier; an empty one is an error. A station event with a
    /// second token requires that token to be a hardware address; one
    /// without a second token, like any unrecognized identifier,
    /// passes through as `Other`.
    pub fn from_string(event: &str) -> (r: Result<Event, ParseError>)
        ensures
            match r {
                Ok(ev) => spec_parse(event@) == Ok::<EventModel, ParseError>(ev@) && ev.wf(),
                Err(e) => spec_parse(event@) == Err::<EventModel, ParseError>(e),
            },
    {
        proof {
            reveal_strlit("AP-STA-CONNECTED");
            reveal_strlit("AP-STA-DISCONNECTED");
        }
        let n = event.unicode_len();
        let start: usize = if n > 0 && event.get_char(0) == '<' {
            let g = find_char(event, '>', 0);
            if g < n {
                g + 1
            } else {
                0
            }
        } else {
            0
        };
        proof {
            assert(start as int == strip_start(event@));
        }
        let ghost rem = event@.subrange(start as int, n as int);
        let ghost toks = event_tokens(event@);
        let sp = find_char(event, ' ', start);
        proof {
            lemma_split_first(rem);
            lemma_find_shift(event@, ' ', start as int, 0);
            assert(find_from(rem, ' ', 0) == sp - start);
            assert(toks[0] =~= event@.subrange(start as int, sp as int));
        }
        let ident = event.substring_char(start, sp);
        if ident.unicode_len() == 0 {
            return Err(ParseError::EmptyIdentifier);
        }
        let connected = str_eq(ident, "AP-STA-CONNECTED");
        let disconnected = str_eq(ident, "AP-STA-DISCONNECTED");
        if (connected || disconnected) && sp < n {
            proof {
                lemma_split_len(event@.subrange(sp as int + 1, n as int));
                assert(rem.subrange(
                    sp - start + 1,
                    rem.len() as int,
                ) =~= event@.subrange(sp as int + 1, n as int));
                assert(toks.len() >= 2);
            }
            let ghost rem2 = event@.subrange(sp as int + 1, n as int);
            let e2 = find_char(event, ' ', sp + 1);
            proof {
                lemma_split_first(rem2);
                lemma_find_shift(event@, ' ', sp as int + 1, 0);
                assert(find_from(rem2, ' ', 0) == e2 - (sp + 1));
                assert(toks[1] == split_spaces(rem2)[0]);
                assert(toks[1] =~= event@.subrange(sp as int + 1, e2 as int));
            }
            let tok2 = event.substring_char(sp + 1, e2);
            match MacAddr::parse_str(tok2) {
                Some(m) => {
                    if connected {
                        let ev = Event::StationConnected { mac: m };
                        proof {
                            assert(spec_parse(event@) == Ok::<EventModel, ParseError>(ev@));
                        }
                        Ok(ev)
                    } else {
                        let ev = Event::StationDisconnected { mac: m };
                        proof {
                            assert(spec_parse(event@) == Ok::<EventModel, ParseError>(ev@));
                        }
                        Ok(ev)
                    }
                },
                None => Err(ParseError::InvalidAddress),
            }
        } else {
            let ident_owned = ident.to_owned();
            let mut args: Vec<String> = Vec::new();
            if sp < n {
                let ghost rem2 = event@.subrange(sp as int + 1, n as int);
                proof {
                    assert(rem.subrange(sp - start + 1, rem.len() as int) =~= rem2);
                    assert(toks.drop_first() =~~= split_spaces(rem2));
                }
                let mut pos: usize = sp + 1;
                loop
                    invariant_except_break
                        sp < n,
                        sp + 1 <= pos <= n,
                        n == event@.len(),
                        args.deep_view() + split_spaces(
                            event@.subrange(pos as int, n as int),
                        ) =~~= split_spaces(rem2),
                    ensures
                        args.deep_view() =~~= split_spaces(rem2),
                    decreases n - pos,
                {
                    let ghost suffix = event@.subrange(pos as int, n as int);
                    let e = find_char(event, ' ', pos);
                    proof {
                        lemma_split_first(suffix);
                        lemma_find_shift(event@, ' ', pos as int, 0);
                        assert(find_from(suffix, ' ', 0) == e - pos);
                        assert(split_spaces(suffix)[0] =~= event@.subrange(
                            pos as int,
                            e as int,
                        ));
                    }
                    let tok = event.substring_char(pos, e);
                    let ghost args_before = args.deep_view();
                    args.push(tok.to_owned());
                    proof {
                        assert(args.deep_view() =~~= args_before.push(tok@));
                    }
                    if e >= n {
                        proof {
                            assert(split_spaces(suffix) =~~= seq![tok@]);
                        }
                        break;
                    }
                    proof {
                        assert(suffix.subrange(
                            e - pos + 1,
                            suffix.len() as int,
                        ) =~= event@.subrange(e as int + 1, n as int));
                    }
                    pos = e + 1;
                }
            } else {
                proof {
                    assert(toks =~~= seq![rem]);
                    assert(args.deep_view() =~~= toks.drop_first());
                }
            }
            let ev = Event::Other { ident: ident_owned, args };
            proof {
                assert(spec_parse(event@) == Ok::<EventModel, ParseError>(ev@));
            }
            Ok(ev)
        }
    }
}

/// A station-event line built from any valid written hardware address
/// parses to the matching station event, with exactly that address.
pub proof fn lemma_parse_station_events(m: Seq<char>)
    requires
        mac_valid(m),
    ensures
        spec_parse("AP-STA-CONNECTED "@ + m) == Ok::<EventModel, ParseError>(
            EventModel::StationConnected { mac: mac_octets(m) },
        ),
        spec_parse("AP-STA-DISCONNECTED "@ + m) == Ok::<EventModel, ParseError>(
            EventModel::StationDisconnected { mac: mac_octets(m) },
        ),
{
    reveal_strlit("AP-STA-CONNECTED ");
    reveal_strlit("AP-STA-CONNECTED");
    reveal_strlit("AP-STA-DISCONNECTED ");
    reveal_strlit("AP-STA-DISCONNECTED");
    lemma_mac_no_space(m);
    assert("AP-STA-CONNECTED "@ =~= "AP-STA-CONNECTED"@ + seq![' ']);
    assert("AP-STA-DISCONNECTED "@ =~= "AP-STA-DISCONNECTED"@ + seq![' ']);
    lemma_parse_station_prefixed(m, "AP-STA-CONNECTED "@, "AP-STA-CONNECTED"@);
    lemma_parse_station_prefixed(m, "AP-STA-DISCONNECTED "@, "AP-STA-DISCONNECTED"@);
}

/// Helper for the station-event law: parsing `ident ++ " " ++ m`
/// finds exactly the tokens `[ident, m]`.
proof fn lemma_parse_station_prefixed(m: Seq<char>, prefix: Seq<char>, ident: Seq<char>)
    requires
        mac_valid(m),
        prefix == ident + seq![' '],
        ident.len() > 0,
        forall|k: int| 0 <= k < ident.len() ==> ident[k] != ' ',
        ident[0] != '<',
    ensures
        event_tokens(prefix + m) == seq![ident, m],
{
    let s = prefix + m;
    let il = ident.len() as int;
    assert(s.len() == il + 1 + m.len());
    assert(s[0] == ident[0]);
    assert(strip_start(s) == 0);
    assert(s.subrange(0, s.len() as int) =~= s);
    lemma_find_from_is(s, ' ', 0, il);
    lemma_split_first(s);
    assert(s.take(il) =~= ident);
    assert(s.subrange(il + 1, s.len() as int) =~= m);
    lemma_mac_no_space(m);
    lemma_find_from_is(m, ' ', 0, m.len() as int);
    lemma_split_first(m);
    assert(event_tokens(s) =~~= seq![ident, m]);
}

/// A line with no marker to strip and no recognized identifier parses
/// to `Other`, holding its first token and the remaining tokens in
/// order; only an empty line fails, with `EmptyIdentifier`.
pub proof fn lemma_parse_other(s: Seq<char>)
    requires
        s.len() > 0 ==> s[0] != ' ' && s[0] != '<',
        event_tokens(s)[0] != "AP-STA-CONNECTED"@,
        event_tokens(s)[0] != "AP-STA-DISCONNECTED"@,
    ensures
        s.len() == 0 ==> spec_parse(s) == Err::<EventModel, ParseError>(
            ParseError::EmptyIdentifier,
        ),
        s.len() > 0 ==> spec_parse(s) == Ok::<EventModel, ParseError>(EventModel::Other {
            ident: split_spaces(s)[0],
            args: split_spaces(s).drop_first(),
        }),
{
    assert(strip_start(s) == 0);
    assert(s.subrange(0, s.len() as int) =~= s);
    assert(event_tokens(s) == split_spaces(s));
    lemma_split_first(s);
    lemma_find_from(s, ' ', 0);
    if s.len() > 0 {
        let j = find_from(s, ' ', 0);
        assert(j > 0);
        assert(split_spaces(s)[0].len() > 0);
    }
}

/// Marker stripping is idempotent in effect: a payload prefixed with
/// a marker parses exactly as the unprefixed payload does, provided
/// the payload does not itself begin with a marker to strip.
pub proof fn lemma_marker_strip(d: Seq<char>, rest: Seq<char>)
    requires
        forall|k: int| 0 <= k < d.len() ==> d[k] != '>',
        strip_start(rest) == 0,
    ensures
        spec_parse(seq!['<'] + d + seq!['>'] + rest) == spec_parse(rest),
{
    let s = seq!['<'] + d + seq!['>'] + rest;
    let dl = d.len() as int;
    assert(s[0] == '<');
    lemma_find_from_is(s, '>', 0, dl + 1);
    assert(strip_start(s) == dl + 2);
    assert(s.subrange(dl + 2, s.len() as int) =~= rest);
    assert(rest.subrange(0, rest.len() as int) =~= rest);
    assert(event_tokens(s) == event_tokens(rest));
}

} // verus!
