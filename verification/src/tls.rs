//! The TLS ClientHello sniffer.
//!
//! A redirected HTTPS connection opens with a TLS ClientHello; the
//! sniffer walks its nested length-prefixed fields — record header,
//! handshake header, the fixed fields, then session id, cipher suites,
//! compression methods and the extensions block — looking for the
//! server-name extension and, within it, the DNS hostname entry.  Any
//! length prefix that overruns the bytes at hand is a parse error, never
//! a panic; a hello without the extension is success with no name.
//!
//! The grammar is written once, as the spec functions below; the
//! executable parser is proved to decide exactly that grammar.

use vstd::prelude::*;

use crate::wire;
use crate::wire::be_at;

verus! {

/// What the sniffer found in a ClientHello.
#[derive(Clone, Debug)]
pub struct TlsParser {
    /// The raw bytes of the server-name (SNI) hostname, if the hello
    /// carried one.
    pub server_name: Option<Vec<u8>>,
}

impl View for TlsParser {
    type V = Option<Seq<u8>>;

    open spec fn view(&self) -> Option<Seq<u8>> {
        match self.server_name {
            Some(v) => Some(v@),
            None => None,
        }
    }
}

/// Scans the server-name entry list: each entry is a one-byte type and a
/// two-byte length; type 0 is the DNS hostname.
/// `None` is a parse error; `Some(None)` a clean list without a hostname.
pub open spec fn spec_scan_entries(s: Seq<u8>, i: int, end: int) -> Option<Option<Seq<u8>>>
    decreases end - i,
{
    if i == end {
        Some(None)
    } else if i + 3 > end {
        None
    } else {
        let nlen = be_at(s, i + 1, 2);
        if i + 3 + nlen > end {
            None
        } else if s[i] == 0 {
            Some(Some(s.subrange(i + 3, i + 3 + nlen)))
        } else {
            spec_scan_entries(s, i + 3 + nlen, end)
        }
    }
}

/// Reads the server-name extension body: a two-byte list length followed
/// by the entry list.
pub open spec fn spec_parse_sni(s: Seq<u8>, i: int, end: int) -> Option<Option<Seq<u8>>> {
    if i + 2 > end {
        None
    } else {
        let llen = be_at(s, i, 2);
        if i + 2 + llen > end {
            None
        } else {
            spec_scan_entries(s, i + 2, i + 2 + llen)
        }
    }
}

/// Scans the extensions block: each extension is a two-byte type, a
/// two-byte length, and that many bytes of data; type 0 is server_name.
pub open spec fn spec_scan_extensions(s: Seq<u8>, i: int, end: int) -> Option<Option<Seq<u8>>>
    decreases end - i,
{
    if i == end {
        Some(None)
    } else if i + 4 > end {
        None
    } else {
        let etype = be_at(s, i, 2);
        let elen = be_at(s, i + 2, 2);
        if i + 4 + elen > end {
            None
        } else if etype == 0 {
            spec_parse_sni(s, i + 4, i + 4 + elen)
        } else {
            spec_scan_extensions(s, i + 4 + elen, end)
        }
    }
}

/// The whole hello grammar, from the first byte read off the socket.
/// `None` is a parse error; `Some(name)` is a well-formed ClientHello
/// whose server name, if any, is `name`.
pub open spec fn spec_parse_client_hello(s: Seq<u8>) -> Option<Option<Seq<u8>>> {
    if s.len() < 5 || s[0] != 0x16 {
        None
    } else {
        let end = 5 + be_at(s, 3, 2);
        if end > s.len() || end < 9 {
            None
        } else if s[5] != 0x01 {
            None
        } else {
            let hs_end = 9 + be_at(s, 6, 3);
            if hs_end > end || hs_end < 43 {
                None
            } else {
                spec_parse_hello_fields(s, 43, hs_end)
            }
        }
    }
}

/// The variable-length fields after version and random: session id,
/// cipher suites, compression methods, then the extensions block.
pub open spec fn spec_parse_hello_fields(s: Seq<u8>, i: int, hs_end: int) -> Option<
    Option<Seq<u8>>,
> {
    if i + 1 > hs_end {
        None
    } else {
        let after_sid = i + 1 + s[i];
        if after_sid + 2 > hs_end {
            None
        } else {
            let after_cs = after_sid + 2 + be_at(s, after_sid, 2);
            if after_cs + 1 > hs_end {
                None
            } else {
                let after_cm = after_cs + 1 + s[after_cs];
                if after_cm > hs_end {
                    None
                } else if after_cm == hs_end {
                    Some(None)
                } else if after_cm + 2 > hs_end {
                    None
                } else {
                    let ext_end = after_cm + 2 + be_at(s, after_cm, 2);
                    if ext_end > hs_end {
                        None
                    } else {
                        spec_scan_extensions(s, after_cm + 2, ext_end)
                    }
                }
            }
        }
    }
}

/// An extension whose declared length runs past the end of the block is
/// a parse error, wherever in the scan it stands.
pub proof fn lemma_truncated_extension_rejected(s: Seq<u8>, i: int, end: int)
    requires
        i + 4 <= end,
        i + 4 + be_at(s, i + 2, 2) > end,
    ensures
        spec_scan_extensions(s, i, end) is None,
{
}

/// The scan passes over a well-formed extension of any other type: what
/// it finds is whatever stands after that extension.
pub proof fn lemma_scan_passes_other_extension(s: Seq<u8>, i: int, end: int)
    requires
        i + 4 <= end,
        i + 4 + be_at(s, i + 2, 2) <= end,
        be_at(s, i, 2) != 0,
    ensures
        spec_scan_extensions(s, i, end) == spec_scan_extensions(
            s,
            i + 4 + be_at(s, i + 2, 2),
            end,
        ),
{
}

/// When the scan stands at a well-formed server_name extension, the
/// answer is exactly what that extension's body holds: its hostname
/// entry, if any.
pub proof fn lemma_scan_finds_sni_extension(s: Seq<u8>, i: int, end: int)
    requires
        i + 4 <= end,
        i + 4 + be_at(s, i + 2, 2) <= end,
        be_at(s, i, 2) == 0,
    ensures
        spec_scan_extensions(s, i, end) == spec_parse_sni(s, i + 4, i + 4 + be_at(s, i + 2, 2)),
{
}

/// The wire bytes of a server_name extension whose one entry is the DNS
/// hostname `name`: type, data length, list length, entry type, name
/// length, then the name itself.
pub open spec fn spec_sni_extension_bytes(name: Seq<u8>) -> Seq<u8> {
    wire::be_bytes_of(0, 2) + wire::be_bytes_of(name.len() + 5, 2) + wire::be_bytes_of(
        name.len() + 3,
        2,
    ) + seq![0u8] + wire::be_bytes_of(name.len(), 2) + name
}

/// The positive half of the sniffer's obligation, constructively: when
/// a well-formed server_name extension carrying `name` stands anywhere
/// the extension scan reaches, the scan yields exactly `name`.
pub proof fn lemma_sni_extension_yields_name(s: Seq<u8>, i: int, end: int, name: Seq<u8>)
    requires
        name.len() <= 0xFFFA,
        0 <= i,
        i + 9 + name.len() <= end,
        end <= s.len(),
        s.subrange(i, i + 9 + name.len()) == spec_sni_extension_bytes(name),
    ensures
        spec_scan_extensions(s, i, end) == Some(Some(name)),
{
    let len = name.len() as int;
    let ext = spec_sni_extension_bytes(name);
    wire::lemma_be_bytes_len(0, 2);
    wire::lemma_be_bytes_len((len + 5) as nat, 2);
    wire::lemma_be_bytes_len((len + 3) as nat, 2);
    wire::lemma_be_bytes_len(len as nat, 2);
    assert(wire::pow256(2) == 65536) by {
        reveal_with_fuel(wire::pow256, 3);
    }
    wire::lemma_be_value_of_bytes(0, 2);
    wire::lemma_be_value_of_bytes((len + 5) as nat, 2);
    wire::lemma_be_value_of_bytes((len + 3) as nat, 2);
    wire::lemma_be_value_of_bytes(len as nat, 2);
    assert(ext.len() == 9 + len);

    // Walk the concatenation, one part at a time, to read each field
    // of the extension back out of `s`.
    let a = wire::be_bytes_of(0, 2);
    let b = wire::be_bytes_of((len + 5) as nat, 2);
    let c = wire::be_bytes_of((len + 3) as nat, 2);
    let d = seq![0u8];
    let e = wire::be_bytes_of(len as nat, 2);
    let p1 = a + b;
    let p2 = p1 + c;
    let p3 = p2 + d;
    let p4 = p3 + e;
    assert(ext == p4 + name);

    assert forall|j: int| 0 <= j < 9 + len implies s[i + j] == ext[j] by {
        assert(s.subrange(i, i + 9 + len)[j] == s[i + j]);
    }

    assert(s.subrange(i, i + 2) =~= a) by {
        assert forall|j: int| 0 <= j < 2 implies s[i + j] == a[j] by {
            assert(ext[j] == p4[j]);
            assert(p4[j] == p3[j]);
            assert(p3[j] == p2[j]);
            assert(p2[j] == p1[j]);
            assert(p1[j] == a[j]);
        }
    }
    assert(s.subrange(i + 2, i + 4) =~= b) by {
        assert forall|j: int| 0 <= j < 2 implies s[i + 2 + j] == b[j] by {
            assert(ext[2 + j] == p4[2 + j]);
            assert(p4[2 + j] == p3[2 + j]);
            assert(p3[2 + j] == p2[2 + j]);
            assert(p2[2 + j] == p1[2 + j]);
            assert(p1[2 + j] == b[j]);
        }
    }
    assert(s.subrange(i + 4, i + 6) =~= c) by {
        assert forall|j: int| 0 <= j < 2 implies s[i + 4 + j] == c[j] by {
            assert(ext[4 + j] == p4[4 + j]);
            assert(p4[4 + j] == p3[4 + j]);
            assert(p3[4 + j] == p2[4 + j]);
            assert(p2[4 + j] == c[j]);
        }
    }
    assert(s[i + 6] == 0) by {
        assert(ext[6] == p4[6]);
        assert(p4[6] == p3[6]);
        assert(p3[6] == d[0]);
    }
    assert(s.subrange(i + 7, i + 9) =~= e) by {
        assert forall|j: int| 0 <= j < 2 implies s[i + 7 + j] == e[j] by {
            assert(ext[7 + j] == p4[7 + j]);
            assert(p4[7 + j] == e[j]);
        }
    }
    assert(s.subrange(i + 9, i + 9 + len) =~= name) by {
        assert forall|j: int| 0 <= j < len implies s[i + 9 + j] == name[j] by {
            assert(ext[9 + j] == name[j]);
        }
    }

    assert(be_at(s, i, 2) == 0);
    assert(be_at(s, i + 2, 2) == len + 5);
    assert(be_at(s, i + 4, 2) == len + 3);
    assert(be_at(s, i + 7, 2) == len);

    lemma_scan_finds_sni_extension(s, i, end);
    assert(spec_parse_sni(s, i + 4, i + 9 + len) == spec_scan_entries(s, i + 6, i + 9 + len));
    lemma_entry_yields_hostname(s, i + 6, i + 9 + len);
}

/// The body of a ClientHello: version, random, then the length-prefixed
/// session id, cipher suites, compression methods, and extensions block.
pub open spec fn spec_hello_body_bytes(
    random: Seq<u8>,
    sid: Seq<u8>,
    ciphers: Seq<u8>,
    comps: Seq<u8>,
    ext: Seq<u8>,
) -> Seq<u8> {
    seq![3u8, 3u8] + random + seq![sid.len() as u8] + sid + wire::be_bytes_of(ciphers.len(), 2)
        + ciphers + seq![comps.len() as u8] + comps + wire::be_bytes_of(ext.len(), 2) + ext
}

/// A whole ClientHello record: record header, handshake header, body.
pub open spec fn spec_hello_record_bytes(
    random: Seq<u8>,
    sid: Seq<u8>,
    ciphers: Seq<u8>,
    comps: Seq<u8>,
    ext: Seq<u8>,
) -> Seq<u8> {
    let body = spec_hello_body_bytes(random, sid, ciphers, comps, ext);
    seq![0x16u8, 3u8, 1u8] + wire::be_bytes_of((body.len() + 4) as nat, 2) + seq![1u8]
        + wire::be_bytes_of(body.len(), 3) + body
}

/// A subrange that falls inside the left part of a concatenation.
proof fn lemma_concat_prefix_field(p: Seq<u8>, q: Seq<u8>, a: int, b: int)
    requires
        0 <= a <= b <= p.len(),
    ensures
        (p + q).subrange(a, b) == p.subrange(a, b),
{
    assert((p + q).subrange(a, b) =~= p.subrange(a, b));
}

/// A subrange that falls inside the right part of a concatenation.
proof fn lemma_concat_suffix_field(p: Seq<u8>, q: Seq<u8>, a: int, b: int)
    requires
        p.len() <= a <= b <= p.len() + q.len(),
    ensures
        (p + q).subrange(a, b) == q.subrange(a - p.len(), b - p.len()),
{
    assert((p + q).subrange(a, b) =~= q.subrange(a - p.len(), b - p.len()));
}

/// The sniffer on a whole well-formed ClientHello: for every hostname
/// and every choice of random, session id, cipher suites, and
/// compression methods that fit their length fields, the record built
/// around a server_name extension carrying that hostname sniffs to
/// exactly that hostname.
pub proof fn lemma_built_hello_sniffs_name(
    random: Seq<u8>,
    sid: Seq<u8>,
    ciphers: Seq<u8>,
    comps: Seq<u8>,
    name: Seq<u8>,
)
    requires
        random.len() == 32,
        sid.len() <= 255,
        ciphers.len() <= 0xffff,
        comps.len() <= 255,
        53 + sid.len() + ciphers.len() + comps.len() + name.len() <= 0xffff,
    ensures
        spec_parse_client_hello(
            spec_hello_record_bytes(
                random,
                sid,
                ciphers,
                comps,
                spec_sni_extension_bytes(name),
            ),
        ) == Some(Some(name)),
{
    let sn = sid.len() as int;
    let cn = ciphers.len() as int;
    let mn = comps.len() as int;
    let ext = spec_sni_extension_bytes(name);
    wire::lemma_be_bytes_len(0, 2);
    wire::lemma_be_bytes_len((name.len() + 5) as nat, 2);
    wire::lemma_be_bytes_len((name.len() + 3) as nat, 2);
    wire::lemma_be_bytes_len(name.len(), 2);
    let en = ext.len() as int;
    assert(en == 9 + name.len());

    let body = spec_hello_body_bytes(random, sid, ciphers, comps, ext);
    let s = spec_hello_record_bytes(random, sid, ciphers, comps, ext);

    let v2 = seq![3u8, 3u8];
    let l1 = seq![sid.len() as u8];
    let l2 = wire::be_bytes_of(ciphers.len(), 2);
    let l3 = seq![comps.len() as u8];
    let l4 = wire::be_bytes_of(ext.len(), 2);
    wire::lemma_be_bytes_len(ciphers.len(), 2);
    wire::lemma_be_bytes_len(ext.len(), 2);
    let bn = body.len() as int;
    assert(bn == 40 + sn + cn + mn + en);

    let a0 = seq![0x16u8, 3u8, 1u8];
    let r2 = wire::be_bytes_of((body.len() + 4) as nat, 2);
    let a2 = seq![1u8];
    let r3 = wire::be_bytes_of(body.len(), 3);
    wire::lemma_be_bytes_len((body.len() + 4) as nat, 2);
    wire::lemma_be_bytes_len(body.len(), 3);
    let head = a0 + r2 + a2 + r3;
    assert(s == head + body);
    assert(s.len() == 9 + bn);

    assert(wire::pow256(2) == 0x10000 && wire::pow256(3) == 0x1000000) by {
        reveal_with_fuel(wire::pow256, 4);
    }
    wire::lemma_be_value_of_bytes((body.len() + 4) as nat, 2);
    wire::lemma_be_value_of_bytes(body.len(), 3);
    wire::lemma_be_value_of_bytes(ciphers.len(), 2);
    wire::lemma_be_value_of_bytes(ext.len(), 2);

    // Record header fields.
    assert(s[0] == 0x16) by {
        lemma_concat_prefix_field(head, body, 0, 1);
        lemma_concat_prefix_field(a0 + r2 + a2, r3, 0, 1);
        lemma_concat_prefix_field(a0 + r2, a2, 0, 1);
        lemma_concat_prefix_field(a0, r2, 0, 1);
        assert(s.subrange(0, 1)[0] == s[0]);
        assert(a0.subrange(0, 1)[0] == 0x16);
    }
    assert(s.subrange(3, 5) == r2) by {
        lemma_concat_prefix_field(head, body, 3, 5);
        lemma_concat_prefix_field(a0 + r2 + a2, r3, 3, 5);
        lemma_concat_prefix_field(a0 + r2, a2, 3, 5);
        lemma_concat_suffix_field(a0, r2, 3, 5);
        assert(r2.subrange(0, 2) =~= r2);
    }
    assert(be_at(s, 3, 2) == bn + 4);
    assert(s[5] == 1) by {
        lemma_concat_prefix_field(head, body, 5, 6);
        lemma_concat_prefix_field(a0 + r2 + a2, r3, 5, 6);
        lemma_concat_suffix_field(a0 + r2, a2, 5, 6);
        assert(s.subrange(5, 6)[0] == s[5]);
        assert(a2.subrange(0, 1)[0] == 1);
    }
    assert(s.subrange(6, 9) == r3) by {
        lemma_concat_prefix_field(head, body, 6, 9);
        lemma_concat_suffix_field(a0 + r2 + a2, r3, 6, 9);
        assert(r3.subrange(0, 3) =~= r3);
    }
    assert(be_at(s, 6, 3) == bn);

    // The body fields, through the head then down the body's parts.
    let b_to_l1 = v2 + random;
    let b_to_sid = b_to_l1 + l1;
    let b_to_l2 = b_to_sid + sid;
    let b_to_ciphers = b_to_l2 + l2;
    let b_to_l3 = b_to_ciphers + ciphers;
    let b_to_comps = b_to_l3 + l3;
    let b_to_l4 = b_to_comps + comps;
    let b_to_ext = b_to_l4 + l4;
    assert(body == b_to_ext + ext);
    assert(b_to_ext.len() == 40 + sn + cn + mn);

    assert(s[43] == sid.len() as u8) by {
        lemma_concat_suffix_field(head, body, 43, 44);
        lemma_concat_prefix_field(b_to_ext, ext, 34, 35);
        lemma_concat_prefix_field(b_to_l4, l4, 34, 35);
        lemma_concat_prefix_field(b_to_comps, comps, 34, 35);
        lemma_concat_prefix_field(b_to_l3, l3, 34, 35);
        lemma_concat_prefix_field(b_to_ciphers, ciphers, 34, 35);
        lemma_concat_prefix_field(b_to_l2, l2, 34, 35);
        lemma_concat_prefix_field(b_to_sid, sid, 34, 35);
        lemma_concat_suffix_field(b_to_l1, l1, 34, 35);
        assert(s.subrange(43, 44)[0] == s[43]);
        assert(l1.subrange(0, 1)[0] == sid.len() as u8);
    }

    assert(s.subrange(44 + sn, 46 + sn) == l2) by {
        lemma_concat_suffix_field(head, body, 44 + sn, 46 + sn);
        lemma_concat_prefix_field(b_to_ext, ext, 35 + sn, 37 + sn);
        lemma_concat_prefix_field(b_to_l4, l4, 35 + sn, 37 + sn);
        lemma_concat_prefix_field(b_to_comps, comps, 35 + sn, 37 + sn);
        lemma_concat_prefix_field(b_to_l3, l3, 35 + sn, 37 + sn);
        lemma_concat_prefix_field(b_to_ciphers, ciphers, 35 + sn, 37 + sn);
        lemma_concat_suffix_field(b_to_l2, l2, 35 + sn, 37 + sn);
        assert(l2.subrange(0, 2) =~= l2);
    }
    assert(be_at(s, 44 + sn, 2) == cn);

    assert(s[46 + sn + cn] == comps.len() as u8) by {
        lemma_concat_suffix_field(head, body, 46 + sn + cn, 47 + sn + cn);
        lemma_concat_prefix_field(b_to_ext, ext, 37 + sn + cn, 38 + sn + cn);
        lemma_concat_prefix_field(b_to_l4, l4, 37 + sn + cn, 38 + sn + cn);
        lemma_concat_prefix_field(b_to_comps, comps, 37 + sn + cn, 38 + sn + cn);
        lemma_concat_suffix_field(b_to_l3, l3, 37 + sn + cn, 38 + sn + cn);
        assert(s.subrange(46 + sn + cn, 47 + sn + cn)[0] == s[46 + sn + cn]);
        assert(l3.subrange(0, 1)[0] == comps.len() as u8);
    }

    assert(s.subrange(47 + sn + cn + mn, 49 + sn + cn + mn) == l4) by {
        lemma_concat_suffix_field(head, body, 47 + sn + cn + mn, 49 + sn + cn + mn);
        lemma_concat_prefix_field(b_to_ext, ext, 38 + sn + cn + mn, 40 + sn + cn + mn);
        lemma_concat_suffix_field(b_to_l4, l4, 38 + sn + cn + mn, 40 + sn + cn + mn);
        assert(l4.subrange(0, 2) =~= l4);
    }
    assert(be_at(s, 47 + sn + cn + mn, 2) == en);

    assert(s.subrange(49 + sn + cn + mn, 49 + sn + cn + mn + en) == ext) by {
        lemma_concat_suffix_field(head, body, 49 + sn + cn + mn, 49 + sn + cn + mn + en);
        lemma_concat_suffix_field(b_to_ext, ext, 40 + sn + cn + mn, 40 + sn + cn + mn + en);
        assert(ext.subrange(0, en) =~= ext);
    }

    // The parse now unfolds: the record and handshake frames fit
    // exactly, the variable fields land on the extensions block, and
    // the block is the one server_name extension.
    let hs_end = 9 + bn;
    assert(spec_parse_client_hello(s) == spec_parse_hello_fields(s, 43, hs_end));
    assert(spec_parse_hello_fields(s, 43, hs_end) == spec_scan_extensions(
        s,
        49 + sn + cn + mn,
        hs_end,
    ));
    lemma_sni_extension_yields_name(s, 49 + sn + cn + mn, hs_end, name);
}

/// A well-formed hostname entry yields exactly its name bytes.
pub proof fn lemma_entry_yields_hostname(s: Seq<u8>, i: int, end: int)
    requires
        i + 3 <= end,
        i + 3 + be_at(s, i + 1, 2) <= end,
        s[i] == 0,
    ensures
        spec_scan_entries(s, i, end) == Some(
            Some(s.subrange(i + 3, i + 3 + be_at(s, i + 1, 2))),
        ),
{
}

/// Reads the `count`-byte big-endian length prefix at `data[start ..]`
/// and returns the field of that many bytes that follows it; an error
/// when the prefix, or the field it declares, overruns the buffer.
pub fn peek<'a>(data: &'a [u8], start: usize, count: usize) -> (r: Result<&'a [u8], &'static str>)
    requires
        count <= 3,
    ensures
        (match r {
            Ok(f) => start + count <= data@.len() && start + count + be_at(
                data@,
                start as int,
                count as int,
            ) <= data@.len() && f@ == data@.subrange(
                start + count,
                start + count + be_at(data@, start as int, count as int),
            ),
            Err(_) => start + count > data@.len() || start + count + be_at(
                data@,
                start as int,
                count as int,
            ) > data@.len(),
        }),
{
    let n = data.len();
    if start > n || n - start < count {
        return Err("not enough data to decode a length prefix");
    }
    let flen = wire::read_be(data, start, count);
    if flen > n - (start + count) {
        return Err("declared length exceeds the buffer");
    }
    Ok(vstd::slice::slice_subrange(data, start + count, start + count + flen))
}

/// Skips the length-prefixed field at `data[start ..]` and returns
/// everything after it.
pub fn truncate_before<'a>(data: &'a [u8], start: usize, count: usize) -> (r: Result<
    &'a [u8],
    &'static str,
>)
    requires
        count <= 3,
    ensures
        (match r {
            Ok(rest) => start + count + be_at(data@, start as int, count as int) <= data@.len()
                && rest@ == data@.subrange(
                start + count + be_at(data@, start as int, count as int),
                data@.len() as int,
            ),
            Err(_) => start + count > data@.len() || start + count + be_at(
                data@,
                start as int,
                count as int,
            ) > data@.len(),
        }),
{
    match peek(data, start, count) {
        Ok(f) => {
            let flen = f.len();
            let n = data.len();
            proof {
                assert(f@.len() == be_at(data@, start as int, count as int));
            }
            Ok(vstd::slice::slice_subrange(data, start + count + flen, n))
        }
        Err(e) => Err(e),
    }
}

/// Scans server-name entries, deciding `spec_scan_entries`.
fn scan_entries(data: &[u8], start: usize, end: usize) -> (r: Result<TlsParser, &'static str>)
    requires
        start <= end,
        end <= data@.len(),
    ensures
        (match r {
            Ok(p) => spec_scan_entries(data@, start as int, end as int) == Some(p@),
            Err(_) => spec_scan_entries(data@, start as int, end as int) is None,
        }),
{
    let mut i = start;
    while i < end
        invariant
            start <= i <= end,
            end <= data@.len(),
            spec_scan_entries(data@, i as int, end as int) == spec_scan_entries(
                data@,
                start as int,
                end as int,
            ),
        decreases end - i,
    {
        if end - i < 3 {
            return Err("truncated server-name entry");
        }
        let nlen = wire::read_be(data, i + 1, 2);
        if nlen > end - (i + 3) {
            return Err("server-name entry length exceeds its list");
        }
        if data[i] == 0 {
            let name = vstd::slice::slice_to_vec(
                vstd::slice::slice_subrange(data, i + 3, i + 3 + nlen),
            );
            return Ok(TlsParser { server_name: Some(name) });
        }
        i = i + 3 + nlen;
    }
    Ok(TlsParser { server_name: None })
}

/// Scans the extensions block, deciding `spec_scan_extensions`; a
/// server_name extension hands over to the entry scan.
fn scan_extensions(data: &[u8], start: usize, end: usize) -> (r: Result<TlsParser, &'static str>)
    requires
        start <= end,
        end <= data@.len(),
    ensures
        (match r {
            Ok(p) => spec_scan_extensions(data@, start as int, end as int) == Some(p@),
            Err(_) => spec_scan_extensions(data@, start as int, end as int) is None,
        }),
{
    let mut i = start;
    while i < end
        invariant
            start <= i <= end,
            end <= data@.len(),
            spec_scan_extensions(data@, i as int, end as int) == spec_scan_extensions(
                data@,
                start as int,
                end as int,
            ),
        decreases end - i,
    {
        if end - i < 4 {
            return Err("truncated extension header");
        }
        let etype = wire::read_be(data, i, 2);
        let elen = wire::read_be(data, i + 2, 2);
        if elen > end - (i + 4) {
            return Err("extension length exceeds its block");
        }
        if etype == 0 {
            // The server_name extension body.
            let sni_start = i + 4;
            let sni_end = i + 4 + elen;
            if sni_end - sni_start < 2 {
                return Err("truncated server-name list length");
            }
            let llen = wire::read_be(data, sni_start, 2);
            if llen > sni_end - (sni_start + 2) {
                return Err("server-name list length exceeds its extension");
            }
            return scan_entries(data, sni_start + 2, sni_start + 2 + llen);
        }
        i = i + 4 + elen;
    }
    Ok(TlsParser { server_name: None })
}

/// Extracts the SNI hostname from the first bytes of a redirected TLS
/// connection.  Decides `spec_parse_client_hello` exactly: a well-formed
/// hello yields its server name (or none), and every malformed or
/// truncated length prefix is an error, with no read out of bounds.
pub fn parse_client_hello(data: &[u8]) -> (r: Result<TlsParser, &'static str>)
    ensures
        (match r {
            Ok(p) => spec_parse_client_hello(data@) == Some(p@),
            Err(_) => spec_parse_client_hello(data@) is None,
        }),
{
    let n = data.len();
    if n < 5 {
        return Err("not enough data for a TLS record header");
    }
    if data[0] != 0x16 {
        return Err("not a TLS handshake record");
    }
    let rec_len = wire::read_be(data, 3, 2);
    let end = 5 + rec_len;
    if end > n {
        return Err("record length exceeds buffer");
    }
    if end < 9 {
        return Err("record too short for a handshake header");
    }
    if data[5] != 0x01 {
        return Err("not a ClientHello handshake");
    }
    let hs_len = wire::read_be(data, 6, 3);
    if hs_len > end - 9 {
        return Err("handshake length exceeds record");
    }
    let hs_end = 9 + hs_len;
    if hs_end < 43 {
        return Err("hello too short for version and random");
    }
    // Fixed fields: 2-byte version and 32-byte random, already inside
    // hs_end; the variable fields follow at offset 43.
    let mut i: usize = 43;
    if i + 1 > hs_end {
        return Err("truncated session id length");
    }
    let sid = data[i] as usize;
    if sid > hs_end - (i + 1) {
        return Err("session id exceeds hello");
    }
    i = i + 1 + sid;
    if hs_end - i < 2 {
        return Err("truncated cipher-suites length");
    }
    let cs_len = wire::read_be(data, i, 2);
    if cs_len > hs_end - (i + 2) {
        return Err("cipher suites exceed hello");
    }
    i = i + 2 + cs_len;
    if hs_end - i < 1 {
        return Err("truncated compression-methods length");
    }
    let cm = data[i] as usize;
    if cm > hs_end - (i + 1) {
        return Err("compression methods exceed hello");
    }
    i = i + 1 + cm;
    if i == hs_end {
        // No extensions block at all: a well-formed hello with no name.
        return Ok(TlsParser { server_name: None });
    }
    if hs_end - i < 2 {
        return Err("truncated extensions length");
    }
    let ext_len = wire::read_be(data, i, 2);
    if ext_len > hs_end - (i + 2) {
        return Err("extensions length exceeds hello");
    }
    scan_extensions(data, i + 2, i + 2 + ext_len)
}

} // verus!
