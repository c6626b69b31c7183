//! Deterministic material of the loopback operator pilot: domain-separated seeds,
//! per-hop link keys, per-relay KEM seeds and the listen-port list.
use vstd::prelude::*;

use vstd::utf8::encode_utf8;

use crate::crypto::{sha3_256, sha3_256_of};
use crate::text::{owned, str_trim, string_from_ascii, trimmed};
use crate::trust::nullifier::{parse_u64_text, spec_parse_u64_text};
use crate::wire::{ascii_chars, decimal, extend_bytes, lemma_decimal_ascii, spec_decimal};

verus! {

/// Relays on the pilot path.
pub const PATH_LEN: usize = 4;

/// First loopback port of the pilot.
pub const PILOT_BASE_PORT: u16 = 17419;

/// Domain of the pilot seeds (`aegis-pilot-v1`).
pub const PILOT_SEED_DOMAIN: [u8; 14] = [97, 101, 103, 105, 115, 45, 112, 105, 108, 111, 116, 45, 118, 49];

/// `SHA3-256("aegis-pilot-v1" || label)`: the pilot's seed for `label`.
pub fn pilot_domain_seed(label: &[u8]) -> (r: [u8; 32])
    ensures
        r@ == sha3_256_of(PILOT_SEED_DOMAIN@ + label@),
{
    let mut msg: Vec<u8> = Vec::new();
    extend_bytes(&mut msg, PILOT_SEED_DOMAIN.as_slice());
    extend_bytes(&mut msg, label);
    sha3_256(msg.as_slice())
}

/// The link key of tag `tag`: `tag`, `0xA5`, then zeros.
pub fn link_key(tag: u8) -> (r: [u8; 32])
    ensures
        r[0] == tag,
        r[1] == 0xA5,
        forall|i: int| 2 <= i < 32 ==> r[i] == 0,
{
    let mut buf = [0u8; 32];
    buf.set(0, tag);
    buf.set(1, 0xA5);
    buf
}

/// Tag of the link key two pilot nodes share: the larger of their indices, as a
/// byte (its low eight bits).
pub fn edge_link_tag(a: usize, b: usize) -> (r: u8)
    ensures
        r == (if a > b { a } else { b }) % 256,
{
    let m = if a > b { a } else { b };
    (m % 256) as u8
}

/// One neighbour of a pilot node: its index and the tag of their shared link key.
#[derive(Clone, Copy, Debug, PartialEq, Eq)]
pub struct PilotLink {
    pub peer: usize,
    pub link_tag: u8,
}

/// What a pilot node's configuration holds beyond its own keys: its neighbours on
/// the line of `PATH_LEN` nodes, whether it takes client ingress, whether it
/// delivers exits.
#[derive(Clone, Debug, PartialEq, Eq)]
pub struct PilotNodeRole {
    pub peers: Vec<PilotLink>,
    pub ingress: bool,
    pub exit: bool,
}

/// The role of pilot node `i`: the previous node then the next one as peers (each
/// link keyed by the larger index), ingress at node 0, exit at the last node.
pub fn pilot_node_role(i: usize) -> (r: PilotNodeRole)
    requires
        i < PATH_LEN,
    ensures
        r.ingress == (i == 0),
        r.exit == (i == PATH_LEN - 1),
        r.peers@ == (if i > 0 { seq![PilotLink { peer: (i - 1) as usize, link_tag: i as u8 }] } else { Seq::empty() })
            + (if i + 1 < PATH_LEN { seq![PilotLink { peer: (i + 1) as usize, link_tag: (i + 1) as u8 }] } else { Seq::empty() }),
{
    let mut peers: Vec<PilotLink> = Vec::new();
    if i > 0 {
        peers.push(PilotLink { peer: i - 1, link_tag: edge_link_tag(i, i - 1) });
    }
    if i + 1 < PATH_LEN {
        peers.push(PilotLink { peer: i + 1, link_tag: edge_link_tag(i, i + 1) });
    }
    proof {
        let a: Seq<PilotLink> = if i > 0 { seq![PilotLink { peer: (i - 1) as usize, link_tag: i as u8 }] } else { Seq::empty() };
        let b: Seq<PilotLink> = if i + 1 < PATH_LEN { seq![PilotLink { peer: (i + 1) as usize, link_tag: (i + 1) as u8 }] } else { Seq::empty() };
        assert(peers@ =~= a + b);
    }
    PilotNodeRole { peers, ingress: i == 0, exit: i == PATH_LEN - 1 }
}

/// A 32-byte seed whose first two bytes are `a` and `b`, the rest zero.
pub open spec fn two_byte_seed(s: [u8; 32], a: u8, b: u8) -> bool {
    s[0] == a && s[1] == b && forall|i: int| 2 <= i < 32 ==> s[i] == 0
}

fn seed_with(a: u8, b: u8) -> (r: [u8; 32])
    ensures
        two_byte_seed(r, a, b),
{
    let mut s = [0u8; 32];
    s.set(0, a);
    s.set(1, b);
    s
}

/// The KEM seeds `(x25519, ml-kem d, ml-kem z)` of pilot relay `index`
/// (indices up to 15 keep every marker byte in range).
pub fn kem_seeds(index: usize) -> (r: ([u8; 32], [u8; 32], [u8; 32]))
    requires
        index <= 15,
    ensures
        two_byte_seed(r.0, (0xA0 + index) as u8, (0xB0 + index) as u8),
        two_byte_seed(r.1, (0xC0 + index) as u8, (0xD0 + index) as u8),
        two_byte_seed(r.2, (0xE0 + index) as u8, (0xF0 + index) as u8),
{
    let i = index as u8;
    (seed_with(0xA0 + i, 0xB0 + i), seed_with(0xC0 + i, 0xD0 + i), seed_with(0xE0 + i, 0xF0 + i))
}

/// The comma-separated pieces of the first `k` characters of `s`.
pub open spec fn split_commas(s: Seq<char>, k: nat) -> Seq<Seq<char>>
    decreases k,
{
    if k == 0 {
        seq![Seq::empty()]
    } else {
        let prev = split_commas(s, (k - 1) as nat);
        if s[k - 1] == ',' {
            prev.push(Seq::empty())
        } else {
            prev.update(prev.len() - 1, prev.last().push(s[k - 1]))
        }
    }
}

pub proof fn lemma_split_nonempty(s: Seq<char>, k: nat)
    ensures
        split_commas(s, k).len() >= 1,
    decreases k,
{
    if k > 0 {
        lemma_split_nonempty(s, (k - 1) as nat);
    }
}

/// A port as Rust's `u16` parser reads the trimmed piece: an optional `+`, then
/// digits, at most 65535.
pub open spec fn spec_parse_port(piece: Seq<char>) -> Option<u16> {
    match spec_parse_u64_text(encode_utf8(trimmed(piece))) {
        Some(v) => if v <= 0xffff { Some(v as u16) } else { None },
        None => None,
    }
}

/// What parsing the `--ports` text gives: the ports, or the error text.
pub open spec fn spec_parse_ports(raw: Seq<char>) -> Result<Seq<u16>, Seq<char>> {
    let pieces = split_commas(raw, raw.len());
    if exists|i: int| 0 <= i < pieces.len() && (#[trigger] spec_parse_port(pieces[i])) is None {
        Err("invalid --ports"@)
    } else if pieces.len() != PATH_LEN {
        Err("expected 4 ports, got "@ + ascii_chars(spec_decimal(pieces.len())))
    } else {
        Ok(pieces.map_values(|p: Seq<char>| spec_parse_port(p)->0))
    }
}

fn parse_port(piece: &str) -> (r: Option<u16>)
    ensures
        r == spec_parse_port(piece@),
{
    let t = str_trim(piece);
    match parse_u64_text(t) {
        Some(v) => if v <= 0xffff {
            Some(v as u16)
        } else {
            None
        },
        None => None,
    }
}

/// Parse the comma-separated listen ports; exactly `PATH_LEN` are expected.
pub fn parse_ports(raw: &str) -> (r: Result<Vec<u16>, String>)
    ensures
        match (r, spec_parse_ports(raw@)) {
            (Ok(v), Ok(p)) => v@ == p,
            (Err(m), Err(t)) => m@ == t,
            _ => false,
        },
{
    let n = raw.unicode_len();
    let ghost pieces = split_commas(raw@, raw@.len());
    let mut ports: Vec<u16> = Vec::new();
    let mut start: usize = 0;
    let mut i: usize = 0;
    loop
        invariant_except_break
            start <= i <= n,
            split_commas(raw@, i as nat).len() == ports@.len() + 1,
            split_commas(raw@, i as nat).last() == raw@.subrange(start as int, i as int),
            forall|j: int| 0 <= j < ports@.len() ==> Some(#[trigger] ports@[j]) == spec_parse_port(
                split_commas(raw@, i as nat)[j]),
        invariant
            n == raw@.len(),
            pieces == split_commas(raw@, raw@.len()),
        ensures
            ports@.len() == pieces.len(),
            forall|j: int| 0 <= j < ports@.len() ==> Some(#[trigger] ports@[j]) == spec_parse_port(pieces[j]),
        decreases n - i,
    {
        let at_end = i == n;
        if at_end || raw.get_char(i) == ',' {
            let piece = raw.substring_char(start, i);
            let ghost cur = split_commas(raw@, i as nat);
            let ghost k = ports@.len() as int;
            match parse_port(piece) {
                Some(p) => ports.push(p),
                None => {
                    proof {
                        assert(cur[k] == piece@);
                        if i < n {
                            assert(split_commas(raw@, (i + 1) as nat) == cur.push(Seq::empty()));
                            lemma_split_prefix_kept(raw@, (i + 1) as nat, raw@.len(), k);
                        }
                        assert(pieces[k] == piece@);
                        assert(spec_parse_port(pieces[k]) is None);
                    }
                    return Err(owned("invalid --ports"));
                },
            }
            if at_end {
                break;
            }
            proof {
                assert(split_commas(raw@, (i + 1) as nat) == cur.push(Seq::empty()));
                assert(raw@.subrange(i + 1, i + 1) =~= Seq::<char>::empty());
            }
            start = i + 1;
        } else {
            proof {
                let prev = split_commas(raw@, i as nat);
                assert(raw@.subrange(start as int, i + 1) =~= raw@.subrange(start as int, i as int).push(raw@[i as int]));
                assert(split_commas(raw@, (i + 1) as nat) == prev.update(prev.len() - 1, prev.last().push(raw@[i as int])));
            }
        }
        i = i + 1;
    }
    proof {
        assert forall|j: int| 0 <= j < pieces.len() implies #[trigger] spec_parse_port(pieces[j]) is Some by {
            assert(Some(ports@[j]) == spec_parse_port(pieces[j]));
        }
    }
    if ports.len() != PATH_LEN {
        let mut m = owned("expected 4 ports, got ");
        proof {
            lemma_decimal_ascii(ports@.len() as nat);
        }
        let d = string_from_ascii(decimal(ports.len() as u64));
        m.append(d.as_str());
        return Err(m);
    }
    proof {
        assert(ports@ =~= pieces.map_values(|p: Seq<char>| spec_parse_port(p)->0));
    }
    Ok(ports)
}

/// Pieces already closed at `k` stay as they are at every later length.
pub proof fn lemma_split_prefix_kept(s: Seq<char>, k: nat, m: nat, j: int)
    requires
        k <= m <= s.len(),
        0 <= j < split_commas(s, k).len(),
    ensures
        split_commas(s, m).len() >= split_commas(s, k).len(),
        j < split_commas(s, k).len() - 1 ==> split_commas(s, m)[j] == split_commas(s, k)[j],
    decreases m - k,
{
    if m > k {
        lemma_split_prefix_kept(s, k, (m - 1) as nat, j);
        lemma_split_nonempty(s, (m - 1) as nat);
    }
}

} // verus!
