use vstd::prelude::*;

verus! {

/// Number of bytes in a topic identifier.
pub const TOPIC_LEN: usize = 32;

/// Largest number of bytes a bootstrap peer address may hold in a ticket.
pub const MAX_PEER_LEN: usize = 65535;

/// Why a ticket text could not be decoded.
#[derive(Debug, Clone, Copy, PartialEq, Eq)]
pub enum TicketError {
    /// The text does not have the layout of a ticket.
    Malformed,
    /// The text carries a version tag that this codec does not know.
    UnsupportedVersion,
}

/// The character for a value below sixteen, in lower-case hexadecimal.
pub open spec fn hex_char(n: u8) -> char {
    if n == 0 { '0' } else if n == 1 { '1' } else if n == 2 { '2' } else if n == 3 { '3' }
    else if n == 4 { '4' } else if n == 5 { '5' } else if n == 6 { '6' } else if n == 7 { '7' }
    else if n == 8 { '8' } else if n == 9 { '9' } else if n == 10 { 'a' } else if n == 11 { 'b' }
    else if n == 12 { 'c' } else if n == 13 { 'd' } else if n == 14 { 'e' } else { 'f' }
}

/// The value of a lower-case hexadecimal digit, if the character is one.
pub open spec fn hex_val(c: char) -> Option<u8> {
    if c == '0' { Some(0u8) } else if c == '1' { Some(1u8) } else if c == '2' { Some(2u8) }
    else if c == '3' { Some(3u8) } else if c == '4' { Some(4u8) } else if c == '5' { Some(5u8) }
    else if c == '6' { Some(6u8) } else if c == '7' { Some(7u8) } else if c == '8' { Some(8u8) }
    else if c == '9' { Some(9u8) } else if c == 'a' { Some(10u8) } else if c == 'b' { Some(11u8) }
    else if c == 'c' { Some(12u8) } else if c == 'd' { Some(13u8) } else if c == 'e' { Some(14u8) }
    else if c == 'f' { Some(15u8) } else { None }
}

/// The two hexadecimal characters of one byte, high digit first.
pub open spec fn hex_pair(b: u8) -> Seq<char> {
    seq![hex_char(b / 16), hex_char(b % 16)]
}

/// Lower-case hexadecimal text of a byte sequence.
pub open spec fn hex_text(bs: Seq<u8>) -> Seq<char>
    decreases bs.len(),
{
    if bs.len() == 0 {
        Seq::empty()
    } else {
        hex_text(bs.drop_last()) + hex_pair(bs.last())
    }
}

/// The bytes that a hexadecimal text stands for, if it is one.
pub open spec fn unhex(s: Seq<char>) -> Option<Seq<u8>>
    decreases s.len(),
{
    if s.len() == 0 {
        Some(Seq::empty())
    } else if s.len() == 1 {
        None
    } else {
        match (unhex(s.take(s.len() - 2)), hex_val(s[s.len() - 2]), hex_val(s[s.len() - 1])) {
            (Some(front), Some(hi), Some(lo)) => Some(front.push((hi * 16 + lo) as u8)),
            _ => None,
        }
    }
}

/// One peer address preceded by its length in two bytes, high byte first.
pub open spec fn frame_one(p: Seq<u8>) -> Seq<u8> {
    seq![(p.len() / 256) as u8, (p.len() % 256) as u8] + p
}

/// The framed peer addresses, one after the other.
pub open spec fn frame_peers(peers: Seq<Seq<u8>>) -> Seq<u8>
    decreases peers.len(),
{
    if peers.len() == 0 {
        Seq::empty()
    } else {
        frame_one(peers[0]) + frame_peers(peers.drop_first())
    }
}

/// The peer addresses that a framed byte sequence holds, if it is one.
pub open spec fn parse_peers(bs: Seq<u8>) -> Option<Seq<Seq<u8>>>
    decreases bs.len(),
{
    if bs.len() == 0 {
        Some(Seq::empty())
    } else if bs.len() < 2 {
        None
    } else {
        let n = bs[0] as int * 256 + bs[1] as int;
        if bs.len() < 2 + n {
            None
        } else {
            match parse_peers(bs.skip(2 + n)) {
                Some(rest) => Some(seq![bs.subrange(2, 2 + n)] + rest),
                None => None,
            }
        }
    }
}

/// A topic and bootstrap peers that a ticket can carry.
pub open spec fn valid_ticket(topic: Seq<u8>, peers: Seq<Seq<u8>>) -> bool {
    &&& topic.len() == TOPIC_LEN
    &&& forall|i: int| 0 <= i < peers.len() ==> #[trigger] peers[i].len() <= MAX_PEER_LEN
}

/// The bytes of a ticket: the topic, then the framed peer addresses.
pub open spec fn ticket_bytes(topic: Seq<u8>, peers: Seq<Seq<u8>>) -> Seq<u8> {
    topic + frame_peers(peers)
}

/// The text of a ticket: the version tag `v1`, then its bytes in hexadecimal.
pub open spec fn encode_spec(topic: Seq<u8>, peers: Seq<Seq<u8>>) -> Seq<char> {
    seq!['v', '1'] + hex_text(ticket_bytes(topic, peers))
}

/// Whether a character is a decimal digit.
pub open spec fn is_digit(c: char) -> bool {
    c == '0' || c == '1' || c == '2' || c == '3' || c == '4' || c == '5' || c == '6' || c == '7'
        || c == '8' || c == '9'
}

/// What decoding a text gives: the version tag is checked first, then the layout.
pub open spec fn decode_spec(s: Seq<char>) -> Result<(Seq<u8>, Seq<Seq<u8>>), TicketError> {
    if s.len() < 2 || s[0] != 'v' || !is_digit(s[1]) {
        Err(TicketError::Malformed)
    } else if s[1] != '1' {
        Err(TicketError::UnsupportedVersion)
    } else {
        match unhex(s.skip(2)) {
            None => Err(TicketError::Malformed),
            Some(bs) => if bs.len() < TOPIC_LEN {
                Err(TicketError::Malformed)
            } else {
                match parse_peers(bs.skip(TOPIC_LEN as int)) {
                    None => Err(TicketError::Malformed),
                    Some(peers) => Ok((bs.take(TOPIC_LEN as int), peers)),
                }
            },
        }
    }
}

/// The views of a sequence of byte vectors.
pub open spec fn views(v: Seq<Vec<u8>>) -> Seq<Seq<u8>> {
    v.map_values(|x: Vec<u8>| x@)
}


/// A room's join descriptor: its topic and the peers to contact first.
#[derive(Debug)]
pub struct Ticket {
    pub topic: Vec<u8>,
    pub bootstrap: Vec<Vec<u8>>,
}

impl View for Ticket {
    type V = (Seq<u8>, Seq<Seq<u8>>);

    open spec fn view(&self) -> (Seq<u8>, Seq<Seq<u8>>) {
        (self.topic@, views(self.bootstrap@))
    }
}

impl Ticket {
    /// A ticket whose topic has the fixed length and whose peers fit the length frame.
    pub open spec fn wf(&self) -> bool {
        valid_ticket(self@.0, self@.1)
    }

    /// The text form of the ticket.
    pub fn encode(&self) -> (r: String)
        requires
            self.wf(),
        ensures
            r@ == encode_spec(self@.0, self@.1),
    {
        let mut bytes: Vec<u8> = Vec::new();
        append_bytes(&mut bytes, &self.topic);
        let mut k: usize = 0;
        while k < self.bootstrap.len()
            invariant
                self.wf(),
                k <= self.bootstrap.len(),
                bytes@ == self.topic@ + frame_peers(views(self.bootstrap@).take(k as int)),
            decreases self.bootstrap.len() - k,
        {
            let peer = &self.bootstrap[k];
            assert(views(self.bootstrap@)[k as int] == peer@);
            assert(peer@.len() <= MAX_PEER_LEN);
            let n: usize = peer.len();
            bytes.push((n / 256) as u8);
            bytes.push((n % 256) as u8);
            append_bytes(&mut bytes, peer);
            proof {
                let vs = views(self.bootstrap@);
                assert(vs.take(k + 1) =~= vs.take(k as int).push(peer@));
                lemma_frame_push(vs.take(k as int), peer@);
                assert(frame_one(peer@) =~= seq![(n / 256) as u8, (n % 256) as u8] + peer@);
            }
            k = k + 1;
        }
        assert(views(self.bootstrap@).take(k as int) =~= views(self.bootstrap@));
        let tag = "v1";
        proof { reveal_strlit("v1"); }
        let mut text = String::from_str(tag);
        append_hex(&mut text, &bytes);
        assert(text@ =~= seq!['v', '1'] + hex_text(bytes@));
        text
    }

    /// Reads a ticket from its text form.
    pub fn decode(text: &str) -> (r: Result<Ticket, TicketError>)
        ensures
            match r {
                Ok(t) => decode_spec(text@) == Ok::<(Seq<u8>, Seq<Seq<u8>>), TicketError>(t@) && t.wf(),
                Err(e) => decode_spec(text@) == Err::<(Seq<u8>, Seq<Seq<u8>>), TicketError>(e),
            },
    {
        let n: usize = text.unicode_len();
        if n < 2 {
            return Err(TicketError::Malformed);
        }
        let c0 = text.get_char(0);
        let c1 = text.get_char(1);
        if c0 != 'v' || !digit_char(c1) {
            return Err(TicketError::Malformed);
        }
        if c1 != '1' {
            return Err(TicketError::UnsupportedVersion);
        }
        let bs = match unhex_from(text, 2) {
            Some(bs) => bs,
            None => return Err(TicketError::Malformed),
        };
        if bs.len() < TOPIC_LEN {
            return Err(TicketError::Malformed);
        }
        let mut topic: Vec<u8> = Vec::new();
        let mut i: usize = 0;
        while i < TOPIC_LEN
            invariant
                i <= TOPIC_LEN <= bs.len(),
                topic@ == bs@.take(i as int),
            decreases TOPIC_LEN - i,
        {
            topic.push(bs[i]);
            assert(bs@.take(i + 1) =~= bs@.take(i as int).push(bs@[i as int]));
            i = i + 1;
        }
        match parse_peers_from(&bs, TOPIC_LEN) {
            Some(bootstrap) => {
                let t = Ticket { topic, bootstrap };
                Ok(t)
            },
            None => Err(TicketError::Malformed),
        }
    }
}

fn digit_char(c: char) -> (r: bool)
    ensures
        r == is_digit(c),
{
    c == '0' || c == '1' || c == '2' || c == '3' || c == '4' || c == '5' || c == '6' || c == '7'
        || c == '8' || c == '9'
}

fn hex_digit(n: u8) -> (r: &'static str)
    requires
        n < 16,
    ensures
        r@ == seq![hex_char(n)],
{
    if n == 0 {
        proof { reveal_strlit("0"); }
        "0"
    } else if n == 1 {
        proof { reveal_strlit("1"); }
        "1"
    } else if n == 2 {
        proof { reveal_strlit("2"); }
        "2"
    } else if n == 3 {
        proof { reveal_strlit("3"); }
        "3"
    } else if n == 4 {
        proof { reveal_strlit("4"); }
        "4"
    } else if n == 5 {
        proof { reveal_strlit("5"); }
        "5"
    } else if n == 6 {
        proof { reveal_strlit("6"); }
        "6"
    } else if n == 7 {
        proof { reveal_strlit("7"); }
        "7"
    } else if n == 8 {
        proof { reveal_strlit("8"); }
        "8"
    } else if n == 9 {
        proof { reveal_strlit("9"); }
        "9"
    } else if n == 10 {
        proof { reveal_strlit("a"); }
        "a"
    } else if n == 11 {
        proof { reveal_strlit("b"); }
        "b"
    } else if n == 12 {
        proof { reveal_strlit("c"); }
        "c"
    } else if n == 13 {
        proof { reveal_strlit("d"); }
        "d"
    } else if n == 14 {
        proof { reveal_strlit("e"); }
        "e"
    } else {
        proof { reveal_strlit("f"); }
        "f"
    }
}

fn digit_value(c: char) -> (r: Option<u8>)
    ensures
        r == hex_val(c),
{
    if c == '0' { Some(0u8) } else if c == '1' { Some(1u8) } else if c == '2' { Some(2u8) }
    else if c == '3' { Some(3u8) } else if c == '4' { Some(4u8) } else if c == '5' { Some(5u8) }
    else if c == '6' { Some(6u8) } else if c == '7' { Some(7u8) } else if c == '8' { Some(8u8) }
    else if c == '9' { Some(9u8) } else if c == 'a' { Some(10u8) } else if c == 'b' { Some(11u8) }
    else if c == 'c' { Some(12u8) } else if c == 'd' { Some(13u8) } else if c == 'e' { Some(14u8) }
    else if c == 'f' { Some(15u8) } else { None }
}

pub(crate) fn append_bytes(out: &mut Vec<u8>, src: &Vec<u8>)
    ensures
        final(out)@ == old(out)@ + src@,
{
    let ghost start = out@;
    let mut i: usize = 0;
    while i < src.len()
        invariant
            i <= src.len(),
            out@ == start + src@.take(i as int),
        decreases src.len() - i,
    {
        out.push(src[i]);
        assert(src@.take(i + 1) =~= src@.take(i as int).push(src@[i as int]));
        i = i + 1;
    }
    assert(src@.take(i as int) =~= src@);
}

fn append_hex(out: &mut String, bs: &Vec<u8>)
    ensures
        final(out)@ == old(out)@ + hex_text(bs@),
{
    let ghost start = out@;
    let mut i: usize = 0;
    while i < bs.len()
        invariant
            i <= bs.len(),
            out@ == start + hex_text(bs@.take(i as int)),
        decreases bs.len() - i,
    {
        let b = bs[i];
        out.append(hex_digit(b / 16));
        out.append(hex_digit(b % 16));
        proof {
            let t = bs@.take(i + 1);
            assert(t.drop_last() =~= bs@.take(i as int));
            assert(t.last() == b);
        }
        assert(out@ =~= start + hex_text(bs@.take(i + 1)));
        i = i + 1;
    }
    assert(bs@.take(i as int) =~= bs@);
}

/// Decodes the hexadecimal text that follows position `start`.
fn unhex_from(text: &str, start: usize) -> (r: Option<Vec<u8>>)
    requires
        start <= text@.len(),
    ensures
        match r {
            Some(v) => unhex(text@.skip(start as int)) == Some(v@),
            None => unhex(text@.skip(start as int)) is None,
        },
{
    let ghost s = text@.skip(start as int);
    let n: usize = text.unicode_len();
    let m: usize = n - start;
    if m % 2 == 1 {
        proof { lemma_unhex_odd(s); }
        return None;
    }
    let mut out: Vec<u8> = Vec::new();
    let mut k: usize = 0;
    assert(s.take(0) =~= Seq::<char>::empty());
    while k < m
        invariant
            n == text@.len(),
            m == n - start,
            s == text@.skip(start as int),
            m % 2 == 0,
            k % 2 == 0,
            k <= m,
            unhex(s.take(k as int)) == Some(out@),
        decreases m - k,
    {
        let hi = digit_value(text.get_char(start + k));
        let lo = digit_value(text.get_char(start + k + 1));
        let ghost t = s.take(k + 2);
        assert(t.take(k as int) =~= s.take(k as int));
        assert(t[k as int] == text@[start + k]);
        assert(t[k + 1] == text@[start + k + 1]);
        match (hi, lo) {
            (Some(h), Some(l)) => {
                out.push(h * 16 + l);
            },
            _ => {
                proof { lemma_unhex_none_extends(s, k as int + 2, m as int); }
                assert(s.take(m as int) =~= s);
                return None;
            },
        }
        k = k + 2;
    }
    assert(s.take(m as int) =~= s);
    Some(out)
}

/// Reads framed peer addresses from position `pos` to the end of `bs`.
fn parse_peers_from(bs: &Vec<u8>, pos0: usize) -> (r: Option<Vec<Vec<u8>>>)
    requires
        pos0 <= bs.len(),
    ensures
        match r {
            Some(v) => parse_peers(bs@.skip(pos0 as int)) == Some(views(v@))
                && forall|i: int| 0 <= i < v@.len() ==> #[trigger] v@[i]@.len() <= MAX_PEER_LEN,
            None => parse_peers(bs@.skip(pos0 as int)) is None,
        },
{
    let mut acc: Vec<Vec<u8>> = Vec::new();
    let mut pos: usize = pos0;
    assert(views(acc@) =~= Seq::<Seq<u8>>::empty());
    proof {
        match parse_peers(bs@.skip(pos0 as int)) {
            Some(r) => assert(views(acc@) + r =~= r),
            None => {},
        }
    }
    while pos < bs.len()
        invariant
            pos0 <= pos <= bs.len(),
            forall|i: int| 0 <= i < acc@.len() ==> #[trigger] acc@[i]@.len() <= MAX_PEER_LEN,
            match parse_peers(bs@.skip(pos as int)) {
                Some(r) => parse_peers(bs@.skip(pos0 as int)) == Some(views(acc@) + r),
                None => parse_peers(bs@.skip(pos0 as int)) is None,
            },
        decreases bs.len() - pos,
    {
        let ghost rest = bs@.skip(pos as int);
        if bs.len() - pos < 2 {
            return None;
        }
        let n: usize = bs[pos] as usize * 256 + bs[pos + 1] as usize;
        assert(rest[0] == bs@[pos as int] && rest[1] == bs@[pos + 1]);
        if bs.len() - pos - 2 < n {
            return None;
        }
        let mut peer: Vec<u8> = Vec::new();
        let mut j: usize = pos + 2;
        while j < pos + 2 + n
            invariant
                pos + 2 <= j <= pos + 2 + n <= bs.len(),
                peer@ == bs@.subrange(pos + 2, j as int),
            decreases pos + 2 + n - j,
        {
            peer.push(bs[j]);
            assert(bs@.subrange(pos + 2, j + 1) =~= bs@.subrange(pos + 2, j as int).push(bs@[j as int]));
            j = j + 1;
        }
        proof {
            assert(rest.skip(2 + n) =~= bs@.skip(pos + 2 + n));
            assert(rest.subrange(2, 2 + n) =~= peer@);
            assert(views(acc@.push(peer)) =~= views(acc@).push(peer@));
            match parse_peers(bs@.skip(pos + 2 + n)) {
                Some(r2) => {
                    assert(views(acc@) + (seq![peer@] + r2) =~= views(acc@).push(peer@) + r2);
                },
                None => {},
            }
        }
        acc.push(peer);
        pos = pos + 2 + n;
    }
    assert(bs@.skip(pos as int) =~= Seq::<u8>::empty());
    assert(views(acc@) + Seq::<Seq<u8>>::empty() =~= views(acc@));
    Some(acc)
}

proof fn lemma_unhex_odd(s: Seq<char>)
    requires
        s.len() % 2 == 1,
    ensures
        unhex(s) is None,
    decreases s.len(),
{
    if s.len() > 1 {
        lemma_unhex_odd(s.take(s.len() - 2));
    }
}

proof fn lemma_unhex_none_extends(s: Seq<char>, k: int, j: int)
    requires
        0 <= k <= j <= s.len(),
        k % 2 == 0,
        j % 2 == 0,
        unhex(s.take(k)) is None,
    ensures
        unhex(s.take(j)) is None,
    decreases j - k,
{
    if j > k {
        lemma_unhex_none_extends(s, k, j - 2);
        assert(s.take(j).take(j - 2) =~= s.take(j - 2));
    }
}

proof fn lemma_frame_push(peers: Seq<Seq<u8>>, p: Seq<u8>)
    ensures
        frame_peers(peers.push(p)) == frame_peers(peers) + frame_one(p),
    decreases peers.len(),
{
    if peers.len() == 0 {
        let q = peers.push(p);
        assert(q.drop_first() =~= Seq::<Seq<u8>>::empty());
        assert(frame_peers(q.drop_first()) =~= Seq::<u8>::empty());
        assert(q[0] == p);
        assert(frame_peers(q) =~= frame_one(p));
        assert(frame_peers(peers) =~= Seq::<u8>::empty());
    } else {
        assert(peers.push(p).drop_first() =~= peers.drop_first().push(p));
        lemma_frame_push(peers.drop_first(), p);
        assert(frame_peers(peers.push(p)) =~= frame_peers(peers) + frame_one(p));
    }
}

proof fn lemma_hex_len(bs: Seq<u8>)
    ensures
        hex_text(bs).len() == 2 * bs.len(),
    decreases bs.len(),
{
    if bs.len() > 0 {
        lemma_hex_len(bs.drop_last());
    }
}

proof fn lemma_unhex_hex(bs: Seq<u8>)
    ensures
        unhex(hex_text(bs)) == Some(bs),
    decreases bs.len(),
{
    if bs.len() > 0 {
        let t = hex_text(bs);
        let b = bs.last();
        lemma_hex_len(bs);
        lemma_hex_len(bs.drop_last());
        lemma_unhex_hex(bs.drop_last());
        assert(t.take(t.len() - 2) =~= hex_text(bs.drop_last()));
        assert(hex_val(hex_char(b / 16)) == Some(b / 16));
        assert(hex_val(hex_char(b % 16)) == Some(b % 16));
        assert((b / 16) * 16 + b % 16 == b);
        assert(bs.drop_last().push(b) =~= bs);
    } else {
        assert(hex_text(bs) =~= Seq::<char>::empty());
    }
}

proof fn lemma_parse_frame(peers: Seq<Seq<u8>>)
    requires
        forall|i: int| 0 <= i < peers.len() ==> #[trigger] peers[i].len() <= MAX_PEER_LEN,
    ensures
        parse_peers(frame_peers(peers)) == Some(peers),
    decreases peers.len(),
{
    if peers.len() == 0 {
        assert(frame_peers(peers) =~= Seq::<u8>::empty());
        assert(peers =~= Seq::<Seq<u8>>::empty());
    } else {
        let p = peers[0];
        let rest = peers.drop_first();
        let f = frame_peers(peers);
        assert(p.len() <= MAX_PEER_LEN);
        assert forall|i: int| 0 <= i < rest.len() implies #[trigger] rest[i].len() <= MAX_PEER_LEN by {
            assert(rest[i] == peers[i + 1]);
        }
        lemma_parse_frame(rest);
        let n = p.len() as int;
        assert((n / 256) * 256 + n % 256 == n);
        assert(f[0] as int * 256 + f[1] as int == n);
        assert(f.skip(2 + n) =~= frame_peers(rest));
        assert(f.subrange(2, 2 + n) =~= p);
        assert(seq![p] + rest =~= peers);
    }
}

/// Decoding the text of a valid ticket gives back its topic and bootstrap peers.
pub proof fn lemma_round_trip(topic: Seq<u8>, peers: Seq<Seq<u8>>)
    requires
        valid_ticket(topic, peers),
    ensures
        decode_spec(encode_spec(topic, peers)) == Ok::<(Seq<u8>, Seq<Seq<u8>>), TicketError>((topic, peers)),
{
    let bytes = ticket_bytes(topic, peers);
    let s = encode_spec(topic, peers);
    lemma_unhex_hex(bytes);
    lemma_parse_frame(peers);
    assert(s.skip(2) =~= hex_text(bytes));
    assert(bytes.skip(TOPIC_LEN as int) =~= frame_peers(peers));
    assert(bytes.take(TOPIC_LEN as int) =~= topic);
}

} // verus!
