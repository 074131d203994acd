//! Lightweight HTTP and TLS inspection of tunnelled byte streams: header end,
//! Content-Length, status code, the site a request is for (CONNECT target, Host header or
//! TLS server name), and when a buffered response is complete.
use vstd::prelude::*;
use vstd::utf8::{decode_utf8, valid_utf8};

verus! {

/// `pat` occurs in `s` at position `i`.
pub open spec fn matches_at(s: Seq<u8>, pat: Seq<u8>, i: int) -> bool {
    0 <= i && i + pat.len() <= s.len() && s.subrange(i, i + pat.len()) == pat
}

/// The first position at or after `i` where `pat` occurs in `s`.
pub open spec fn find_from(s: Seq<u8>, pat: Seq<u8>, i: int) -> Option<int>
    decreases s.len() + 1 - i,
{
    if i < 0 || i + pat.len() > s.len() {
        None
    } else if matches_at(s, pat, i) {
        Some(i)
    } else {
        find_from(s, pat, i + 1)
    }
}

/// The first position of `pat` in `s`.
pub open spec fn find(s: Seq<u8>, pat: Seq<u8>) -> Option<int> {
    find_from(s, pat, 0)
}

/// The first position at or after `i` whose byte satisfies `p`, or the length of `s`.
pub open spec fn first_from(s: Seq<u8>, i: int, p: spec_fn(u8) -> bool) -> int
    decreases s.len() - i,
{
    if i < 0 || i >= s.len() {
        if i < 0 {
            0
        } else {
            s.len() as int
        }
    } else if p(s[i]) {
        i
    } else {
        first_from(s, i + 1, p)
    }
}

/// `u8::is_ascii_whitespace`: space, tab, line feed, form feed, carriage return.
pub open spec fn is_ws(b: u8) -> bool {
    b == 32 || b == 9 || b == 10 || b == 12 || b == 13
}

pub open spec fn is_digit(b: u8) -> bool {
    48 <= b <= 57
}

pub open spec fn not_ws() -> spec_fn(u8) -> bool {
    |b: u8| !is_ws(b)
}

pub open spec fn not_digit() -> spec_fn(u8) -> bool {
    |b: u8| !is_digit(b)
}

/// `\r\n\r\n`
pub open spec fn crlfcrlf() -> Seq<u8> {
    seq![13u8, 10, 13, 10]
}

/// `Content-Length:`
pub open spec fn content_length_marker() -> Seq<u8> {
    seq![67u8, 111, 110, 116, 101, 110, 116, 45, 76, 101, 110, 103, 116, 104, 58]
}

/// `HTTP/1.1 `
pub open spec fn http11_marker() -> Seq<u8> {
    seq![72u8, 84, 84, 80, 47, 49, 46, 49, 32]
}

/// `HTTP/`
pub open spec fn http_marker() -> Seq<u8> {
    seq![72u8, 84, 84, 80, 47]
}

/// `Host:`
pub open spec fn host_marker() -> Seq<u8> {
    seq![72u8, 111, 115, 116, 58]
}

/// `CONNECT `
pub open spec fn connect_marker() -> Seq<u8> {
    seq![67u8, 79, 78, 78, 69, 67, 84, 32]
}

pub open spec fn sat(x: int) -> int {
    if x > usize::MAX {
        usize::MAX as int
    } else {
        x
    }
}

/// The value of a run of decimal digits, saturating at `usize::MAX` at each step.
pub open spec fn sat_decimal(digits: Seq<u8>) -> int
    decreases digits.len(),
{
    if digits.len() == 0 {
        0
    } else {
        sat(sat(sat_decimal(digits.drop_last()) * 10) + (digits.last() - 48))
    }
}

/// The value of three decimal digits.
pub open spec fn three_digits(s: Seq<u8>, i: int) -> u16 {
    ((s[i] - 48) * 100 + (s[i + 1] - 48) * 10 + (s[i + 2] - 48)) as u16
}

/// End of the HTTP header block: just past the first `\r\n\r\n`.
pub open spec fn header_end_spec(buf: Seq<u8>) -> Option<int> {
    match find(buf, crlfcrlf()) {
        Some(i) => Some(i + 4),
        None => None,
    }
}

/// Header end and Content-Length value, if both are present.
pub open spec fn content_length_spec(buf: Seq<u8>) -> Option<(int, int)> {
    match header_end_spec(buf) {
        None => None,
        Some(hdr_end) => {
            let headers = buf.take(hdr_end);
            match find(headers, content_length_marker()) {
                None => None,
                Some(pos) => {
                    let start = first_from(headers, pos + 15, not_ws());
                    let end = first_from(headers, start, not_digit());
                    if start >= headers.len() || end == start {
                        None
                    } else {
                        Some((hdr_end, sat_decimal(headers.subrange(start, end))))
                    }
                },
            }
        },
    }
}

/// Status code after the first `HTTP/1.1 `.
pub open spec fn status_code_spec(buf: Seq<u8>) -> Option<u16> {
    match find(buf, http11_marker()) {
        None => None,
        Some(pos) => {
            let start = pos + 9;
            if buf.len() < start + 3 || !is_digit(buf[start]) || !is_digit(buf[start + 1]) || !is_digit(
                buf[start + 2],
            ) {
                None
            } else {
                Some(three_digits(buf, start))
            }
        },
    }
}

/// Status code of the first `HTTP/<version> <code>` status line.
pub open spec fn any_status_code_spec(buf: Seq<u8>) -> Option<u16> {
    match find(buf, http_marker()) {
        None => None,
        Some(pos) => {
            let sp = first_from(buf, pos + 5, |b: u8| b == 32);
            if sp >= buf.len() {
                None
            } else {
                let i = first_from(buf, sp, not_ws());
                if i + 3 > buf.len() || !is_digit(buf[i]) || !is_digit(buf[i + 1]) || !is_digit(buf[i + 2]) {
                    None
                } else {
                    Some(three_digits(buf, i))
                }
            }
        },
    }
}

/// The last position of byte `b` in `s`.
pub open spec fn last_index_of(s: Seq<u8>, b: u8) -> Option<int>
    decreases s.len(),
{
    if s.len() == 0 {
        None
    } else if s.last() == b {
        Some(s.len() - 1)
    } else {
        last_index_of(s.drop_last(), b)
    }
}

/// The host part of `host:port` as a range of the input: brackets of an IPv6 literal
/// removed, a trailing `:<digits>` removed.
pub open spec fn strip_port_spec(hp: Seq<u8>) -> Option<(int, int)> {
    if hp.len() == 0 {
        None
    } else if hp[0] == 91 {
        let close = first_from(hp, 0, |b: u8| b == 93);
        if close >= hp.len() || close <= 1 {
            None
        } else {
            Some((1, close))
        }
    } else {
        match last_index_of(hp, 58) {
            Some(idx) => if idx + 1 < hp.len() && (forall|j: int| idx < j < hp.len() ==> is_digit(hp[j])) {
                Some((0, idx))
            } else {
                Some((0, hp.len() as int))
            },
            None => Some((0, hp.len() as int)),
        }
    }
}

/// The host bytes of the `Host:` header of a request.
pub open spec fn http_host_spec(req: Seq<u8>) -> Option<Seq<u8>> {
    match find(req, host_marker()) {
        None => None,
        Some(pos) => {
            let i = first_from(req, pos + 5, not_ws());
            if i >= req.len() {
                None
            } else {
                let end = first_from(req, i, |b: u8| b == 13 || b == 10);
                let hp = req.subrange(i, end);
                match strip_port_spec(hp) {
                    Some((a, b)) => Some(hp.subrange(a, b)),
                    None => None,
                }
            }
        },
    }
}

/// The host bytes of the target of a `CONNECT host:port ...` request.
pub open spec fn connect_host_spec(req: Seq<u8>) -> Option<Seq<u8>> {
    if req.len() < 8 || req.take(8) != connect_marker() {
        None
    } else {
        let end = first_from(req, 8, |b: u8| b == 32);
        if end >= req.len() {
            None
        } else {
            let hp = req.subrange(8, end);
            match strip_port_spec(hp) {
                Some((a, b)) => Some(hp.subrange(a, b)),
                None => None,
            }
        }
    }
}

pub open spec fn be16(s: Seq<u8>, i: int) -> int {
    s[i] * 256 + s[i + 1]
}

/// The first host name in the server-name list `req[n..list_end]`.
pub open spec fn sni_in_names(req: Seq<u8>, n: int, list_end: int) -> Option<Seq<u8>>
    decreases list_end - n,
{
    if n + 3 > list_end || n < 0 {
        None
    } else {
        let name_type = req[n];
        let name_len = be16(req, n + 1);
        if n + 3 + name_len > list_end {
            None
        } else if name_type == 0 {
            Some(req.subrange(n + 3, n + 3 + name_len))
        } else {
            sni_in_names(req, n + 3 + name_len, list_end)
        }
    }
}

/// The host name of the first server_name extension in `req[e..ext_end]`.
pub open spec fn sni_in_extensions(req: Seq<u8>, e: int, ext_end: int) -> Option<Seq<u8>>
    decreases ext_end - e,
{
    if e + 4 > ext_end || e < 0 {
        None
    } else {
        let ext_type = be16(req, e);
        let ext_size = be16(req, e + 2);
        let body = e + 4;
        if body + ext_size > ext_end {
            None
        } else if ext_type == 0 {
            if ext_size < 2 {
                None
            } else {
                let list_end = body + 2 + be16(req, body);
                if list_end > body + ext_size {
                    None
                } else {
                    sni_in_names(req, body + 2, list_end)
                }
            }
        } else {
            sni_in_extensions(req, body + ext_size, ext_end)
        }
    }
}

/// The server name of an unencrypted TLS ClientHello at the start of `req`.
pub open spec fn tls_sni_spec(req: Seq<u8>) -> Option<Seq<u8>> {
    if req.len() < 9 || req[0] != 0x16 || req.len() < 5 + be16(req, 3) || req[5] != 1 || req.len() < 9 + 2 + 32 {
        None
    } else {
        let i: int = 43;
        if i >= req.len() {
            None
        } else {
            let i: int = i + 1 + req[i];
            if i + 2 > req.len() {
                None
            } else {
                let i: int = i + 2 + be16(req, i);
                if i + 1 > req.len() {
                    None
                } else {
                    let i: int = i + 1 + req[i];
                    if i + 2 > req.len() {
                        None
                    } else {
                        let ext_end = i + 2 + be16(req, i);
                        if ext_end > req.len() {
                            None
                        } else {
                            sni_in_extensions(req, i + 2, ext_end)
                        }
                    }
                }
            }
        }
    }
}

/// `n` as two big-endian bytes.
pub open spec fn be16_bytes(n: nat) -> Seq<u8> {
    seq![(n / 256) as u8, (n % 256) as u8]
}

/// `n` as three big-endian bytes.
pub open spec fn be24_bytes(n: nat) -> Seq<u8> {
    seq![(n / 65536) as u8, ((n / 256) % 256) as u8, (n % 256) as u8]
}

/// One TLS extension: its type, the length of its data, and the data.
pub open spec fn tls_extension(ext_type: nat, data: Seq<u8>) -> Seq<u8> {
    be16_bytes(ext_type) + be16_bytes(data.len()) + data
}

/// A list of TLS extensions, one after the other.
pub open spec fn tls_extensions(exts: Seq<(nat, Seq<u8>)>) -> Seq<u8>
    decreases exts.len(),
{
    if exts.len() == 0 {
        Seq::empty()
    } else {
        tls_extension(exts[0].0, exts[0].1) + tls_extensions(exts.drop_first())
    }
}

/// A server_name extension (type 0) naming `host`: a list holding one host_name entry.
pub open spec fn server_name_extension(host: Seq<u8>) -> Seq<u8> {
    tls_extension(0, be16_bytes(host.len() + 3) + seq![0u8] + be16_bytes(host.len()) + host)
}

/// The fixed part of a ClientHello body before its extensions.
pub open spec fn client_hello_head(random: Seq<u8>, session_id: Seq<u8>, suites: Seq<u8>, compression: Seq<u8>) -> Seq<u8> {
    seq![3u8, 3u8] + random + seq![session_id.len() as u8] + session_id + be16_bytes(suites.len()) + suites + seq![
        compression.len() as u8,
    ] + compression
}

/// A TLS record holding one ClientHello handshake message with the given fields and
/// extension bytes.
pub open spec fn client_hello(
    random: Seq<u8>,
    session_id: Seq<u8>,
    suites: Seq<u8>,
    compression: Seq<u8>,
    extensions: Seq<u8>,
) -> Seq<u8> {
    let head = client_hello_head(random, session_id, suites, compression);
    let body_len = head.len() + 2 + extensions.len();
    seq![0x16u8, 3u8, 1u8] + be16_bytes(body_len + 4) + seq![1u8] + be24_bytes(body_len) + head + be16_bytes(
        extensions.len(),
    ) + extensions
}

proof fn lemma_be16_bytes(n: nat)
    requires
        n < 65536,
    ensures
        be16(be16_bytes(n), 0) == n,
        be16_bytes(n).len() == 2,
{
    assert(n / 256 < 256 && (n / 256) * 256 + n % 256 == n) by (nonlinear_arith)
        requires
            n < 65536,
    ;
}

/// Bytes `x` stand at position `at` of `req`.
pub open spec fn bytes_at(req: Seq<u8>, at: int, x: Seq<u8>) -> bool {
    0 <= at && at + x.len() <= req.len() && req.subrange(at, at + x.len()) == x
}

proof fn lemma_be16_at(req: Seq<u8>, at: int, n: nat)
    requires
        n < 65536,
        bytes_at(req, at, be16_bytes(n)),
    ensures
        be16(req, at) == n,
{
    lemma_be16_bytes(n);
    assert(req[at] == req.subrange(at, at + 2)[0]);
    assert(req[at + 1] == req.subrange(at, at + 2)[1]);
}

proof fn lemma_bytes_at_split(req: Seq<u8>, at: int, x: Seq<u8>, y: Seq<u8>)
    requires
        bytes_at(req, at, x + y),
    ensures
        bytes_at(req, at, x),
        bytes_at(req, at + x.len(), y),
{
    let whole = req.subrange(at, at + (x + y).len());
    assert(whole == x + y);
    assert(req.subrange(at, at + x.len()) =~= whole.subrange(0, x.len() as int));
    assert(whole.subrange(0, x.len() as int) =~= x);
    assert(req.subrange(at + x.len(), at + x.len() + y.len()) =~= whole.subrange(x.len() as int, (x + y).len() as int));
    assert(whole.subrange(x.len() as int, (x + y).len() as int) =~= y);
}

/// Each extension's data fits its two-byte length and its type is not server_name.
pub open spec fn other_extensions(exts: Seq<(nat, Seq<u8>)>) -> bool {
    forall|i: int| 0 <= i < exts.len() ==> 0 < (#[trigger] exts[i]).0 < 65536 && exts[i].1.len() < 65536
}

/// The server name is found behind any number of extensions of other types: an extension
/// list holding extensions of other types and then a server_name extension for `host`
/// names `host`.
pub proof fn lemma_sni_behind_other_extensions(
    req: Seq<u8>,
    e: int,
    ext_end: int,
    others: Seq<(nat, Seq<u8>)>,
    host: Seq<u8>,
)
    requires
        other_extensions(others),
        host.len() + 5 < 65536,
        bytes_at(req, e, tls_extensions(others) + server_name_extension(host)),
        e + (tls_extensions(others) + server_name_extension(host)).len() <= ext_end,
    ensures
        sni_in_extensions(req, e, ext_end) == Some(host),
    decreases others.len(),
{
    if others.len() == 0 {
        assert(tls_extensions(others) =~= Seq::<u8>::empty());
        assert(tls_extensions(others) + server_name_extension(host) =~= server_name_extension(host));
        let list = be16_bytes(host.len() + 3) + seq![0u8] + be16_bytes(host.len()) + host;
        lemma_be16_bytes(host.len() + 3);
        lemma_be16_bytes(host.len());
        assert(list.len() == host.len() + 5);
        assert(server_name_extension(host) =~= be16_bytes(0) + (be16_bytes(list.len()) + list));
        lemma_bytes_at_split(req, e, be16_bytes(0), be16_bytes(list.len()) + list);
        lemma_bytes_at_split(req, e + 2, be16_bytes(list.len()), list);
        lemma_be16_at(req, e, 0);
        lemma_be16_at(req, e + 2, list.len());
        let body = e + 4;
        assert(list =~= be16_bytes(host.len() + 3) + (seq![0u8] + (be16_bytes(host.len()) + host)));
        lemma_bytes_at_split(req, body, be16_bytes(host.len() + 3), seq![0u8] + (be16_bytes(host.len()) + host));
        lemma_be16_at(req, body, host.len() + 3);
        lemma_bytes_at_split(req, body + 2, seq![0u8], be16_bytes(host.len()) + host);
        lemma_bytes_at_split(req, body + 3, be16_bytes(host.len()), host);
        lemma_be16_at(req, body + 3, host.len());
        assert(req[body + 2] == req.subrange(body + 2, body + 3)[0]);
        let n = body + 2;
        assert(sni_in_names(req, n, n + 3 + host.len()) == Some(req.subrange(n + 3, n + 3 + host.len())));
    } else {
        let (t, d) = others[0];
        let rest = others.drop_first();
        assert(other_extensions(rest)) by {
            assert forall|i: int| 0 <= i < rest.len() implies 0 < (#[trigger] rest[i]).0 < 65536 && rest[i].1.len() < 65536 by {
                assert(rest[i] == others[i + 1]);
            }
        }
        let tail = tls_extensions(rest) + server_name_extension(host);
        assert(tls_extensions(others) + server_name_extension(host) =~= be16_bytes(t) + (be16_bytes(d.len()) + (d
            + tail)));
        lemma_bytes_at_split(req, e, be16_bytes(t), be16_bytes(d.len()) + (d + tail));
        lemma_bytes_at_split(req, e + 2, be16_bytes(d.len()), d + tail);
        lemma_bytes_at_split(req, e + 4, d, tail);
        lemma_be16_bytes(t);
        lemma_be16_bytes(d.len());
        lemma_be16_at(req, e, t);
        lemma_be16_at(req, e + 2, d.len());
        lemma_sni_behind_other_extensions(req, e + 4 + d.len(), ext_end, rest, host);
    }
}

proof fn lemma_byte_at(req: Seq<u8>, at: int, b: u8)
    requires
        bytes_at(req, at, seq![b]),
    ensures
        req[at] == b,
{
    assert(req[at] == req.subrange(at, at + 1)[0]);
}

proof fn lemma_head_fields(req: Seq<u8>, at: int, random: Seq<u8>, session_id: Seq<u8>, suites: Seq<u8>, compression: Seq<u8>)
    requires
        random.len() == 32,
        session_id.len() < 256,
        suites.len() < 65536,
        compression.len() < 256,
        bytes_at(req, at, client_hello_head(random, session_id, suites, compression)),
    ensures
        req[at + 34] == session_id.len(),
        be16(req, at + 35 + session_id.len()) == suites.len(),
        req[at + 37 + session_id.len() + suites.len()] == compression.len(),
        client_hello_head(random, session_id, suites, compression).len() == 38 + session_id.len() + suites.len()
            + compression.len(),
{
    let sl = session_id.len();
    let cl = suites.len();
    let ml = compression.len();
    lemma_be16_bytes(cl);
    let p5 = seq![3u8, 3u8] + random + seq![sl as u8] + session_id + be16_bytes(cl) + suites;
    lemma_bytes_at_split(req, at, p5 + seq![ml as u8], compression);
    lemma_bytes_at_split(req, at, p5, seq![ml as u8]);
    lemma_bytes_at_split(req, at, seq![3u8, 3u8] + random + seq![sl as u8] + session_id + be16_bytes(cl), suites);
    lemma_bytes_at_split(req, at, seq![3u8, 3u8] + random + seq![sl as u8] + session_id, be16_bytes(cl));
    lemma_bytes_at_split(req, at, seq![3u8, 3u8] + random + seq![sl as u8], session_id);
    lemma_bytes_at_split(req, at, seq![3u8, 3u8] + random, seq![sl as u8]);
    lemma_byte_at(req, at + 34, sl as u8);
    lemma_be16_at(req, at + 35 + sl, cl);
    lemma_byte_at(req, at + 37 + sl + cl, ml as u8);
}

proof fn lemma_record_fields(random: Seq<u8>, session_id: Seq<u8>, suites: Seq<u8>, compression: Seq<u8>, extensions: Seq<u8>)
    requires
        client_hello_head(random, session_id, suites, compression).len() + 2 + extensions.len() + 4 < 65536,
    ensures
        ({
            let req = client_hello(random, session_id, suites, compression, extensions);
            let hl: int = client_hello_head(random, session_id, suites, compression).len() as int;
            &&& req.len() == 11 + hl + extensions.len()
            &&& req[0] == 0x16
            &&& be16(req, 3) == hl + 2 + extensions.len() + 4
            &&& req[5] == 1
            &&& bytes_at(req, 9, client_hello_head(random, session_id, suites, compression))
            &&& be16(req, 9 + hl) == extensions.len()
            &&& bytes_at(req, 11 + hl, extensions)
        }),
{
    let head = client_hello_head(random, session_id, suites, compression);
    let bl = head.len() + 2 + extensions.len();
    let req = client_hello(random, session_id, suites, compression, extensions);
    lemma_be16_bytes(bl + 4);
    lemma_be16_bytes(extensions.len());
    assert(bytes_at(req, 0, req)) by {
        assert(req.subrange(0, req.len() as int) =~= req);
    }
    let a1 = seq![0x16u8, 3u8, 1u8] + be16_bytes(bl + 4) + seq![1u8] + be24_bytes(bl);
    lemma_bytes_at_split(req, 0, a1 + head + be16_bytes(extensions.len()), extensions);
    lemma_bytes_at_split(req, 0, a1 + head, be16_bytes(extensions.len()));
    lemma_bytes_at_split(req, 0, a1, head);
    lemma_bytes_at_split(req, 0, seq![0x16u8, 3u8, 1u8] + be16_bytes(bl + 4) + seq![1u8], be24_bytes(bl));
    lemma_bytes_at_split(req, 0, seq![0x16u8, 3u8, 1u8] + be16_bytes(bl + 4), seq![1u8]);
    lemma_bytes_at_split(req, 0, seq![0x16u8, 3u8, 1u8], be16_bytes(bl + 4));
    assert(seq![0x16u8, 3u8, 1u8] =~= seq![0x16u8] + seq![3u8, 1u8]);
    lemma_bytes_at_split(req, 0, seq![0x16u8], seq![3u8, 1u8]);
    lemma_byte_at(req, 0, 0x16u8);
    lemma_be16_at(req, 3, bl + 4);
    lemma_byte_at(req, 5, 1u8);
    lemma_be16_at(req, 9 + head.len() as int, extensions.len());
}

proof fn lemma_tls_sni_reads(req: Seq<u8>, sl: int, cl: int, ml: int, el: int)
    requires
        0 <= sl < 256,
        0 <= cl,
        0 <= ml < 256,
        0 <= el,
        req.len() == 49 + sl + cl + ml + el,
        req[0] == 0x16,
        be16(req, 3) == req.len() - 5,
        req[5] == 1,
        req[43] == sl,
        be16(req, 44 + sl) == cl,
        req[46 + sl + cl] == ml,
        be16(req, 47 + sl + cl + ml) == el,
    ensures
        tls_sni_spec(req) == sni_in_extensions(req, 49 + sl + cl + ml, 49 + sl + cl + ml + el),
{
}

/// Reading a ClientHello finds its extension list where it was written.
proof fn lemma_client_hello_extensions(
    random: Seq<u8>,
    session_id: Seq<u8>,
    suites: Seq<u8>,
    compression: Seq<u8>,
    extensions: Seq<u8>,
)
    requires
        random.len() == 32,
        session_id.len() < 256,
        suites.len() < 65536,
        compression.len() < 256,
        client_hello_head(random, session_id, suites, compression).len() + 2 + extensions.len() + 4 < 65536,
    ensures
        ({
            let req = client_hello(random, session_id, suites, compression, extensions);
            let off: int = 9 + client_hello_head(random, session_id, suites, compression).len() as int + 2;
            &&& bytes_at(req, off, extensions)
            &&& tls_sni_spec(req) == sni_in_extensions(req, off, off + extensions.len() as int)
        }),
{
    let req = client_hello(random, session_id, suites, compression, extensions);
    lemma_record_fields(random, session_id, suites, compression, extensions);
    lemma_head_fields(req, 9, random, session_id, suites, compression);
    lemma_tls_sni_reads(
        req,
        session_id.len() as int,
        suites.len() as int,
        compression.len() as int,
        extensions.len() as int,
    );
}

/// The server name of a ClientHello is found whatever extensions of other types precede
/// its server_name extension: a ClientHello whose extension list holds extensions of
/// other types, then a server_name extension for `host`, then any further extension
/// bytes, names `host`.
pub proof fn lemma_client_hello_sni(
    random: Seq<u8>,
    session_id: Seq<u8>,
    suites: Seq<u8>,
    compression: Seq<u8>,
    others: Seq<(nat, Seq<u8>)>,
    host: Seq<u8>,
    more: Seq<u8>,
)
    requires
        random.len() == 32,
        session_id.len() < 256,
        suites.len() < 65536,
        compression.len() < 256,
        other_extensions(others),
        host.len() + 5 < 65536,
        client_hello_head(random, session_id, suites, compression).len() + 2 + (tls_extensions(others)
            + server_name_extension(host) + more).len() + 4 < 65536,
    ensures
        tls_sni_spec(
            client_hello(random, session_id, suites, compression, tls_extensions(others) + server_name_extension(host) + more),
        ) == Some(host),
{
    let x = tls_extensions(others) + server_name_extension(host);
    let ext = x + more;
    lemma_client_hello_extensions(random, session_id, suites, compression, ext);
    let req = client_hello(random, session_id, suites, compression, ext);
    let off: int = 9 + client_hello_head(random, session_id, suites, compression).len() as int + 2;
    lemma_bytes_at_split(req, off, x, more);
    lemma_sni_behind_other_extensions(req, off, off + ext.len() as int, others, host);
}

/// The text of `bytes`, when there are bytes and they are valid UTF-8.
pub open spec fn utf8_text(bytes: Option<Seq<u8>>) -> Option<Seq<char>> {
    match bytes {
        None => None,
        Some(b) => if valid_utf8(b) {
            Some(decode_utf8(b))
        } else {
            None
        },
    }
}

pub open spec fn str_view(r: Option<&str>) -> Option<Seq<char>> {
    match r {
        Some(s) => Some(s@),
        None => None,
    }
}

/// `std::str::from_utf8`: `Some` exactly for valid UTF-8, holding the decoded characters.
#[verifier::external_body]
fn str_from_utf8(bytes: &[u8]) -> (r: Option<&str>)
    ensures
        r is Some <==> valid_utf8(bytes@),
        r matches Some(s) ==> s@ == decode_utf8(bytes@),
{
    std::str::from_utf8(bytes).ok()
}

fn utf8_of(bytes: Option<&[u8]>) -> (r: Option<&str>)
    ensures
        str_view(r) == utf8_text(
            match bytes {
                Some(b) => Some(b@),
                None => None,
            },
        ),
{
    match bytes {
        Some(b) => str_from_utf8(b),
        None => None,
    }
}

fn matches_at_exec(s: &[u8], pat: &[u8], i: usize) -> (r: bool)
    requires
        i + pat@.len() <= s@.len(),
    ensures
        r == matches_at(s@, pat@, i as int),
{
    let n: usize = s.len();
    let mut k: usize = 0;
    while k < pat.len()
        invariant
            n == s@.len(),
            k <= pat@.len(),
            i + pat@.len() <= s@.len(),
            forall|j: int| 0 <= j < k ==> s@[i + j] == pat@[j],
        decreases pat@.len() - k,
    {
        if s[i + k] != pat[k] {
            assert(s@.subrange(i as int, i + pat@.len())[k as int] != pat@[k as int]);
            return false;
        }
        k = k + 1;
    }
    assert(s@.subrange(i as int, i + pat@.len()) =~= pat@);
    true
}

/// First position of `pat` in `s`.
pub fn find_bytes(s: &[u8], pat: &[u8]) -> (r: Option<usize>)
    requires
        pat@.len() > 0,
    ensures
        match find(s@, pat@) {
            Some(i) => r == Some(i as usize),
            None => r is None,
        },
{
    if s.len() < pat.len() {
        return None;
    }
    let last = s.len() - pat.len();
    let mut i: usize = 0;
    while i <= last
        invariant
            last + pat@.len() == s@.len(),
            pat@.len() > 0,
            s@.len() <= usize::MAX,
            i <= last + 1,
            find(s@, pat@) == find_from(s@, pat@, i as int),
        decreases last + 1 - i,
    {
        if matches_at_exec(s, pat, i) {
            return Some(i);
        }
        i = i + 1;
    }
    None
}

fn skip_ws(s: &[u8], i: usize) -> (r: usize)
    requires
        i <= s@.len(),
    ensures
        r == first_from(s@, i as int, not_ws()),
        i <= r <= s@.len(),
{
    let mut k = i;
    while k < s.len() && is_ascii_ws(s[k])
        invariant
            i <= k <= s@.len(),
            first_from(s@, i as int, not_ws()) == first_from(s@, k as int, not_ws()),
        decreases s@.len() - k,
    {
        k = k + 1;
    }
    k
}

fn is_ascii_ws(b: u8) -> (r: bool)
    ensures
        r == is_ws(b),
{
    b == 32 || b == 9 || b == 10 || b == 12 || b == 13
}

fn is_ascii_digit(b: u8) -> (r: bool)
    ensures
        r == is_digit(b),
{
    48 <= b && b <= 57
}

/// Position just past the first `\r\n\r\n`.
pub fn http_header_end(buf: &[u8]) -> (r: Option<usize>)
    ensures
        match header_end_spec(buf@) {
            Some(e) => r matches Some(x) && x == e,
            None => r is None,
        },
{
    let needle: [u8; 4] = [13, 10, 13, 10];
    assert(needle@ =~= crlfcrlf());
    let n: usize = buf.len();
    proof {
        lemma_find_bound(buf@, crlfcrlf(), 0);
    }
    match find_bytes(buf, needle.as_slice()) {
        Some(i) => Some(i + 4),
        None => None,
    }
}

proof fn lemma_find_bound(s: Seq<u8>, pat: Seq<u8>, i: int)
    ensures
        find_from(s, pat, i) matches Some(j) ==> i <= j && j + pat.len() <= s.len() && matches_at(s, pat, j),
    decreases s.len() + 1 - i,
{
    if !(i < 0 || i + pat.len() > s.len()) && !matches_at(s, pat, i) {
        lemma_find_bound(s, pat, i + 1);
    }
}

proof fn lemma_first_from_bound(s: Seq<u8>, i: int, p: spec_fn(u8) -> bool)
    requires
        0 <= i,
    ensures
        i <= s.len() ==> i <= first_from(s, i, p) <= s.len(),
        i > s.len() ==> first_from(s, i, p) == s.len(),
        first_from(s, i, p) < s.len() ==> p(s[first_from(s, i, p)]),
        forall|j: int| i <= j < first_from(s, i, p) ==> !p(#[trigger] s[j]),
    decreases s.len() - i,
{
    if i < s.len() && !p(s[i]) {
        lemma_first_from_bound(s, i + 1, p);
    }
}

/// Header end and Content-Length (case-sensitive header name), if both are present.
pub fn http_content_length(buf: &[u8]) -> (r: Option<(usize, usize)>)
    ensures
        match content_length_spec(buf@) {
            Some((e, n)) => r matches Some((x, y)) && x == e && y == n,
            None => r is None,
        },
{
    let buf_len: usize = buf.len();
    let hdr_end = match http_header_end(buf) {
        Some(e) => e,
        None => return None,
    };
    proof {
        lemma_find_bound(buf@, crlfcrlf(), 0);
    }
    let headers = &buf[0..hdr_end];
    assert(headers@ =~= buf@.take(hdr_end as int));
    let marker: [u8; 15] = [67, 111, 110, 116, 101, 110, 116, 45, 76, 101, 110, 103, 116, 104, 58];
    assert(marker@ =~= content_length_marker());
    let pos = match find_bytes(headers, marker.as_slice()) {
        Some(p) => p,
        None => return None,
    };
    proof {
        lemma_find_bound(headers@, content_length_marker(), 0);
    }
    let start = skip_ws(headers, pos + 15);
    if start >= headers.len() {
        return None;
    }
    let mut k = start;
    let mut len: usize = 0;
    while k < headers.len() && is_ascii_digit(headers[k])
        invariant
            start <= k <= headers@.len(),
            first_from(headers@, start as int, not_digit()) == first_from(headers@, k as int, not_digit()),
            len as int == sat_decimal(headers@.subrange(start as int, k as int)),
        decreases headers@.len() - k,
    {
        let d = (headers[k] - 48) as usize;
        len = sat_mul10(len).saturating_add(d);
        proof {
            let ds = headers@.subrange(start as int, k + 1);
            assert(ds.drop_last() =~= headers@.subrange(start as int, k as int));
        }
        k = k + 1;
    }
    if k == start {
        return None;
    }
    Some((hdr_end, len))
}

/// Status code after the first `HTTP/1.1 `.
pub fn http_status_code(buf: &[u8]) -> (r: Option<u16>)
    ensures
        r == status_code_spec(buf@),
{
    let buf_len: usize = buf.len();
    let marker: [u8; 9] = [72, 84, 84, 80, 47, 49, 46, 49, 32];
    assert(marker@ =~= http11_marker());
    let pos = match find_bytes(buf, marker.as_slice()) {
        Some(p) => p,
        None => return None,
    };
    proof {
        lemma_find_bound(buf@, http11_marker(), 0);
    }
    let start = pos + 9;
    if buf.len() - start < 3 {
        return None;
    }
    if !is_ascii_digit(buf[start]) || !is_ascii_digit(buf[start + 1]) || !is_ascii_digit(buf[start + 2]) {
        return None;
    }
    Some((buf[start] - 48) as u16 * 100 + (buf[start + 1] - 48) as u16 * 10 + (buf[start + 2] - 48) as u16)
}

/// Status code of the first `HTTP/<version> <code>` status line.
pub fn extract_http_status_code(buf: &[u8]) -> (r: Option<u16>)
    ensures
        r == any_status_code_spec(buf@),
{
    let buf_len: usize = buf.len();
    let marker: [u8; 5] = [72, 84, 84, 80, 47];
    assert(marker@ =~= http_marker());
    let pos = match find_bytes(buf, marker.as_slice()) {
        Some(p) => p,
        None => return None,
    };
    proof {
        lemma_find_bound(buf@, http_marker(), 0);
    }
    let mut i = pos + 5;
    while i < buf.len() && buf[i] != 32
        invariant
            pos + 5 <= i <= buf@.len(),
            first_from(buf@, pos + 5, |b: u8| b == 32) == first_from(buf@, i as int, |b: u8| b == 32),
        decreases buf@.len() - i,
    {
        i = i + 1;
    }
    if i >= buf.len() {
        return None;
    }
    let i = skip_ws(buf, i);
    if buf.len() - i < 3 {
        return None;
    }
    if !is_ascii_digit(buf[i]) || !is_ascii_digit(buf[i + 1]) || !is_ascii_digit(buf[i + 2]) {
        return None;
    }
    Some((buf[i] - 48) as u16 * 100 + (buf[i + 1] - 48) as u16 * 10 + (buf[i + 2] - 48) as u16)
}

proof fn lemma_last_index(s: Seq<u8>, b: u8)
    ensures
        last_index_of(s, b) matches Some(i) ==> 0 <= i < s.len() && s[i] == b && forall|j: int|
            i < j < s.len() ==> s[j] != b,
        last_index_of(s, b) is None ==> forall|j: int| 0 <= j < s.len() ==> s[j] != b,
    decreases s.len(),
{
    if s.len() > 0 && s.last() != b {
        lemma_last_index(s.drop_last(), b);
        assert forall|j: int| 0 <= j < s.len() - 1 implies s[j] == s.drop_last()[j] by {}
    }
}

/// The host part of `host:port`: an IPv6 literal without its brackets, or the input
/// without a trailing `:<digits>`; `None` for empty input or an empty or unclosed bracket.
pub fn strip_port_from_host_bytes(host_port: &[u8]) -> (r: Option<&[u8]>)
    ensures
        match strip_port_spec(host_port@) {
            Some((a, b)) => r matches Some(h) && h@ == host_port@.subrange(a, b),
            None => r is None,
        },
{
    let n = host_port.len();
    if n == 0 {
        return None;
    }
    if host_port[0] == 91 {
        let mut close: usize = 0;
        while close < n && host_port[close] != 93
            invariant
                close <= n == host_port@.len(),
                first_from(host_port@, 0, |b: u8| b == 93) == first_from(host_port@, close as int, |b: u8| b == 93),
            decreases n - close,
        {
            close = close + 1;
        }
        if close >= n || close <= 1 {
            return None;
        }
        return Some(&host_port[1..close]);
    }
    let mut idx = n;
    assert(host_port@.take(n as int) =~= host_port@);
    while idx > 0 && host_port[idx - 1] != 58
        invariant
            idx <= n == host_port@.len(),
            forall|j: int| idx <= j < n ==> host_port@[j] != 58,
            last_index_of(host_port@, 58) == last_index_of(host_port@.take(idx as int), 58),
        decreases idx,
    {
        proof {
            let t = host_port@.take(idx as int);
            assert(t.drop_last() =~= host_port@.take(idx - 1));
        }
        idx = idx - 1;
    }
    let found = idx > 0;
    if found {
        proof {
            let t = host_port@.take(idx as int);
            assert(t.last() == 58);
        }
    }
    if found {
        let colon = idx - 1;
        assert(last_index_of(host_port@, 58) == Some(colon as int));
        if colon + 1 < n {
            let mut k = colon + 1;
            while k < n && is_ascii_digit(host_port[k])
                invariant
                    colon + 1 <= k <= n == host_port@.len(),
                    forall|j: int| colon < j < k ==> is_digit(host_port@[j]),
                decreases n - k,
            {
                k = k + 1;
            }
            if k == n {
                return Some(&host_port[0..colon]);
            }
            assert(!is_digit(host_port@[k as int]));
        }
        assert(host_port@.subrange(0, n as int) =~= host_port@);
        return Some(host_port);
    }
    proof {
        assert(host_port@.take(0) =~= Seq::<u8>::empty());
    }
    assert(host_port@.subrange(0, n as int) =~= host_port@);
    Some(host_port)
}

/// The `Host:` header value of a request without its port, if it is valid UTF-8.
pub fn extract_http_host_from_request(req: &[u8]) -> (r: Option<&str>)
    ensures
        str_view(r) == utf8_text(http_host_spec(req@)),
{
    let req_len: usize = req.len();
    let marker: [u8; 5] = [72, 111, 115, 116, 58];
    assert(marker@ =~= host_marker());
    let pos = match find_bytes(req, marker.as_slice()) {
        Some(p) => p,
        None => return None,
    };
    proof {
        lemma_find_bound(req@, host_marker(), 0);
    }
    let i = skip_ws(req, pos + 5);
    if i >= req.len() {
        return None;
    }
    let mut end = i;
    while end < req.len() && req[end] != 13 && req[end] != 10
        invariant
            i <= end <= req@.len(),
            first_from(req@, i as int, |b: u8| b == 13 || b == 10) == first_from(req@, end as int, |b: u8| b == 13 || b == 10),
        decreases req@.len() - end,
    {
        end = end + 1;
    }
    let host_port = &req[i..end];
    utf8_of(strip_port_from_host_bytes(host_port))
}

/// The target host of a `CONNECT host:port ...` request, if it is valid UTF-8.
pub fn extract_connect_host_from_request(req: &[u8]) -> (r: Option<&str>)
    ensures
        str_view(r) == utf8_text(connect_host_spec(req@)),
{
    let marker: [u8; 8] = [67, 79, 78, 78, 69, 67, 84, 32];
    assert(marker@ =~= connect_marker());
    if req.len() < 8 || !matches_at_exec(req, marker.as_slice(), 0) {
        proof {
            if req@.len() >= 8 {
                assert(req@.subrange(0, 8) =~= req@.take(8));
            }
        }
        return None;
    }
    assert(req@.subrange(0, 8) =~= req@.take(8));
    let mut end: usize = 8;
    while end < req.len() && req[end] != 32
        invariant
            8 <= end <= req@.len(),
            first_from(req@, 8, |b: u8| b == 32) == first_from(req@, end as int, |b: u8| b == 32),
        decreases req@.len() - end,
    {
        end = end + 1;
    }
    if end >= req.len() {
        return None;
    }
    let host_port = &req[8..end];
    utf8_of(strip_port_from_host_bytes(host_port))
}

fn sat_mul10(x: usize) -> (r: usize)
    ensures
        r == sat(x * 10),
{
    if x > usize::MAX / 10 {
        assert(x * 10 > usize::MAX) by (nonlinear_arith)
            requires
                x > usize::MAX / 10,
        ;
        usize::MAX
    } else {
        assert(x * 10 <= usize::MAX) by (nonlinear_arith)
            requires
                x <= usize::MAX / 10,
        ;
        x * 10
    }
}

fn be16_at(s: &[u8], i: usize) -> (r: usize)
    requires
        i + 2 <= s@.len(),
    ensures
        r == be16(s@, i as int),
        r < 65536,
{
    (s[i] as usize) * 256 + s[i + 1] as usize
}

fn sni_names(req: &[u8], n0: usize, list_end: usize) -> (r: Option<&[u8]>)
    requires
        n0 <= list_end <= req@.len(),
    ensures
        match sni_in_names(req@, n0 as int, list_end as int) {
            Some(b) => r matches Some(x) && x@ == b,
            None => r is None,
        },
{
    let mut n = n0;
    while list_end - n >= 3
        invariant
            n <= list_end <= req@.len(),
            sni_in_names(req@, n0 as int, list_end as int) == sni_in_names(req@, n as int, list_end as int),
        decreases list_end - n,
    {
        let name_type = req[n];
        let name_len = be16_at(req, n + 1);
        if name_len > list_end - n - 3 {
            return None;
        }
        if name_type == 0 {
            return Some(&req[n + 3..n + 3 + name_len]);
        }
        n = n + 3 + name_len;
    }
    None
}

fn sni_extensions(req: &[u8], e0: usize, ext_end: usize) -> (r: Option<&[u8]>)
    requires
        e0 <= ext_end <= req@.len(),
    ensures
        match sni_in_extensions(req@, e0 as int, ext_end as int) {
            Some(b) => r matches Some(x) && x@ == b,
            None => r is None,
        },
{
    let mut e = e0;
    while ext_end - e >= 4
        invariant
            e <= ext_end <= req@.len(),
            sni_in_extensions(req@, e0 as int, ext_end as int) == sni_in_extensions(req@, e as int, ext_end as int),
        decreases ext_end - e,
    {
        let ext_type = be16_at(req, e);
        let ext_size = be16_at(req, e + 2);
        let body = e + 4;
        if ext_size > ext_end - body {
            return None;
        }
        if ext_type == 0 {
            if ext_size < 2 {
                return None;
            }
            let list_len = be16_at(req, body);
            if list_len > ext_size - 2 {
                return None;
            }
            return sni_names(req, body + 2, body + 2 + list_len);
        }
        e = body + ext_size;
    }
    None
}

fn tls_sni_bytes(req: &[u8]) -> (r: Option<&[u8]>)
    ensures
        match tls_sni_spec(req@) {
            Some(b) => r matches Some(x) && x@ == b,
            None => r is None,
        },
{
    let n = req.len();
    if n < 9 || req[0] != 0x16 {
        return None;
    }
    let record_len = be16_at(req, 3);
    if n - 5 < record_len || req[5] != 1 {
        return None;
    }
    if n < 43 {
        return None;
    }
    let mut i: usize = 43;
    if i >= n {
        return None;
    }
    let sid_len = req[i] as usize;
    if n - i - 1 < sid_len || n - i - 1 - sid_len < 2 {
        return None;
    }
    i = i + 1 + sid_len;
    let cs_len = be16_at(req, i);
    if n - i - 2 < cs_len || n - i - 2 - cs_len < 1 {
        return None;
    }
    i = i + 2 + cs_len;
    let comp_len = req[i] as usize;
    if n - i - 1 < comp_len || n - i - 1 - comp_len < 2 {
        return None;
    }
    i = i + 1 + comp_len;
    let ext_total_len = be16_at(req, i);
    if n - i - 2 < ext_total_len {
        return None;
    }
    sni_extensions(req, i + 2, i + 2 + ext_total_len)
}

/// The server name of an unencrypted TLS ClientHello, if present and valid UTF-8.
pub fn extract_tls_sni_from_request(req: &[u8]) -> (r: Option<&str>)
    ensures
        str_view(r) == utf8_text(tls_sni_spec(req@)),
{
    utf8_of(tls_sni_bytes(req))
}

/// The site a request is for: the CONNECT target, else the Host header, else the TLS
/// server name.
pub fn extract_site_from_request(req: &[u8]) -> (r: Option<&str>)
    ensures
        str_view(r) == (if utf8_text(connect_host_spec(req@)) is Some {
            utf8_text(connect_host_spec(req@))
        } else if utf8_text(http_host_spec(req@)) is Some {
            utf8_text(http_host_spec(req@))
        } else {
            utf8_text(tls_sni_spec(req@))
        }),
{
    let a = extract_connect_host_from_request(req);
    if a.is_some() {
        return a;
    }
    let b = extract_http_host_from_request(req);
    if b.is_some() {
        return b;
    }
    extract_tls_sni_from_request(req)
}

} // verus!
