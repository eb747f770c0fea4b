//! The canonical FoundationDB keyspace: ordered byte keys under
//! `/sorx/{tenant}/{sor}`, with percent-encoded path segments and event
//! sequences zero-padded to 20 digits so that byte order is numeric order.
use vstd::prelude::*;
use vstd::utf8::*;

use crate::text::{
    bytes_lt, chars_lt, lemma_ascii_bytes_lt, lemma_bytes_lt_common_prefix,
    lemma_encode_utf8_concat, lemma_padded_decimal_digits, lemma_padded_decimal_order,
    padded_decimal, padded_decimal_chars, pow10, push_char, push_str, utf8_bytes,
};
use crate::types::SorNamespace;

verus! {

/// Bytes kept as they are by the segment encoding: ASCII letters, digits,
/// `-`, `_` and `.`.
pub open spec fn is_unreserved(b: u8) -> bool {
    (65 <= b <= 90) || (97 <= b <= 122) || (48 <= b <= 57) || b == 45 || b == 95 || b == 46
}

/// Upper-case hexadecimal digit for `0 <= d < 16`.
pub open spec fn hex_upper(d: int) -> char {
    if d < 10 {
        (48 + d) as char
    } else {
        (55 + d) as char
    }
}

/// The encoding of one byte: itself, or `%` and two upper-case hex digits.
pub open spec fn encode_byte(b: u8) -> Seq<char> {
    if is_unreserved(b) {
        seq![b as char]
    } else {
        seq!['%', hex_upper((b / 16) as int), hex_upper((b % 16) as int)]
    }
}

/// The percent-encoding of a byte sequence, byte by byte from the front.
pub open spec fn encode_segment(bytes: Seq<u8>) -> Seq<char>
    decreases bytes.len(),
{
    if bytes.len() == 0 {
        seq![]
    } else {
        encode_byte(bytes[0]) + encode_segment(bytes.drop_first())
    }
}

proof fn lemma_encode_segment_push(bytes: Seq<u8>, b: u8)
    ensures
        encode_segment(bytes.push(b)) == encode_segment(bytes) + encode_byte(b),
    decreases bytes.len(),
{
    if bytes.len() == 0 {
        assert(bytes.push(b).drop_first() =~= Seq::<u8>::empty());
        assert(bytes.push(b)[0] == b);
        assert(encode_segment(Seq::<u8>::empty()) == Seq::<char>::empty());
        assert(encode_segment(bytes) == Seq::<char>::empty());
        assert(encode_segment(bytes.push(b)) =~= encode_byte(b));
    } else {
        assert(bytes.push(b).drop_first() =~= bytes.drop_first().push(b));
        lemma_encode_segment_push(bytes.drop_first(), b);
        assert(encode_segment(bytes.push(b)) =~= encode_segment(bytes) + encode_byte(b));
    }
}

/// Percent-encodes a key segment: ASCII letters, digits, `-`, `_` and `.` are
/// preserved; every other byte of the UTF-8 text becomes `%XX` (upper case).
pub fn encode_key_segment(input: &str) -> (encoded: String)
    ensures
        encoded@ == encode_segment(encode_utf8(input@)),
{
    let bytes = input.as_bytes();
    let mut encoded = String::new();
    let n = bytes.len();
    for i in 0..n
        invariant
            n == bytes@.len(),
            bytes@ == encode_utf8(input@),
            encoded@ == encode_segment(bytes@.take(i as int)),
    {
        let byte = bytes[i];
        proof {
            assert(bytes@.take(i + 1) =~= bytes@.take(i as int).push(byte));
            lemma_encode_segment_push(bytes@.take(i as int), byte);
        }
        if (byte >= 65 && byte <= 90) || (byte >= 97 && byte <= 122) || (byte >= 48 && byte
            <= 57) || byte == 45 || byte == 95 || byte == 46 {
            push_char(&mut encoded, byte as char);
        } else {
            push_char(&mut encoded, '%');
            push_char(&mut encoded, hex_digit(byte / 16));
            push_char(&mut encoded, hex_digit(byte % 16));
        }
        assert(encoded@ =~= encode_segment(bytes@.take(i + 1)));
    }
    assert(bytes@.take(n as int) =~= bytes@);
    encoded
}

fn hex_digit(d: u8) -> (c: char)
    requires
        d < 16,
    ensures
        c == hex_upper(d as int),
{
    if d < 10 {
        (d + 48) as char
    } else {
        (d + 55) as char
    }
}

/// Every character of an encoded segment is ASCII and none is `/`.
pub proof fn lemma_encode_segment_safe(bytes: Seq<u8>)
    ensures
        is_ascii_chars(encode_segment(bytes)),
        !encode_segment(bytes).contains('/'),
        !encode_segment(bytes).contains('\u{1f}'),
    decreases bytes.len(),
{
    if bytes.len() > 0 {
        lemma_encode_segment_safe(bytes.drop_first());
        let e = encode_byte(bytes[0]);
        let r = encode_segment(bytes.drop_first());
        assert(encode_segment(bytes) == e + r);
        assert forall|i: int| 0 <= i < (e + r).len() implies '\0' <= #[trigger] (e + r)[i]
            <= '\u{7f}' && (e + r)[i] != '/' && (e + r)[i] != '\u{1f}' by {
            if i >= e.len() {
                assert((e + r)[i] == r[i - e.len()]);
                assert(r.contains(r[i - e.len()]));
            }
        }
    }
}

/// A character an encoded segment may hold: an ASCII letter or digit, `-`,
/// `_`, `.` or `%`.
pub open spec fn is_segment_char(c: char) -> bool {
    ('A' <= c <= 'Z') || ('a' <= c <= 'z') || ('0' <= c <= '9') || c == '-' || c == '_' || c == '.'
        || c == '%'
}

/// Every character of an encoded segment is a segment character, so none is
/// `/`, `:` or a unit separator.
pub proof fn lemma_encode_segment_charset(bytes: Seq<u8>)
    ensures
        forall|i: int| 0 <= i < encode_segment(bytes).len() ==> is_segment_char(#[trigger] encode_segment(bytes)[i]),
        !encode_segment(bytes).contains('/'),
        !encode_segment(bytes).contains(':'),
        !encode_segment(bytes).contains('\u{1f}'),
    decreases bytes.len(),
{
    if bytes.len() > 0 {
        lemma_encode_segment_charset(bytes.drop_first());
        let e = encode_byte(bytes[0]);
        let r = encode_segment(bytes.drop_first());
        assert(encode_segment(bytes) == e + r);
        assert forall|i: int| 0 <= i < e.len() implies is_segment_char(#[trigger] e[i]) by {
            let b = bytes[0];
            if !is_unreserved(b) && i > 0 {
                assert(b / 16 < 16 && b % 16 < 16);
            }
        }
        assert forall|i: int| 0 <= i < (e + r).len() implies is_segment_char(#[trigger] (e + r)[i]) by {
            if i >= e.len() {
                assert((e + r)[i] == r[i - e.len()]);
            } else {
                assert((e + r)[i] == e[i]);
            }
        }
    }
    assert forall|i: int| 0 <= i < encode_segment(bytes).len() implies encode_segment(bytes)[i] != '/'
        && encode_segment(bytes)[i] != ':' && encode_segment(bytes)[i] != '\u{1f}' by {
        assert(is_segment_char(encode_segment(bytes)[i]));
    }
}

/// The value of an upper-case hexadecimal digit.
pub open spec fn hex_value(c: char) -> int {
    if '0' <= c <= '9' {
        c as int - 48
    } else if 'A' <= c <= 'F' {
        c as int - 55
    } else {
        0
    }
}

/// Percent-decoding: each `%XX` becomes the byte `0xXX`, every other
/// character the byte of its code.
pub open spec fn decode_segment(s: Seq<char>) -> Seq<u8>
    decreases s.len(),
{
    if s.len() == 0 {
        Seq::empty()
    } else if s[0] == '%' && s.len() >= 3 {
        seq![(hex_value(s[1]) * 16 + hex_value(s[2])) as u8] + decode_segment(s.skip(3))
    } else {
        seq![s[0] as u8] + decode_segment(s.drop_first())
    }
}

/// Percent-decoding an encoded segment gives back the bytes it encodes.
pub proof fn lemma_decode_encode_segment(bytes: Seq<u8>)
    ensures
        decode_segment(encode_segment(bytes)) == bytes,
    decreases bytes.len(),
{
    if bytes.len() > 0 {
        lemma_decode_encode_segment(bytes.drop_first());
        let b = bytes[0];
        let e = encode_byte(b);
        let r = encode_segment(bytes.drop_first());
        let s = e + r;
        assert(encode_segment(bytes) == s);
        if is_unreserved(b) {
            assert(s[0] == b as char);
            assert(s.drop_first() =~= r);
            assert((b as char) as u8 == b);
        } else {
            assert(s[0] == '%' && s[1] == hex_upper((b / 16) as int) && s[2] == hex_upper((b % 16) as int));
            assert(s.skip(3) =~= r);
            assert(hex_value(hex_upper((b / 16) as int)) == b / 16);
            assert(hex_value(hex_upper((b % 16) as int)) == b % 16);
            assert((b / 16) * 16 + b % 16 == b);
        }
        assert(decode_segment(s) =~= seq![b] + bytes.drop_first());
        assert(bytes =~= seq![b] + bytes.drop_first());
    } else {
        assert(bytes =~= Seq::<u8>::empty());
    }
}

/// Percent-encoding is injective: distinct segments never share an encoding.
pub proof fn lemma_encode_segment_injective(a: Seq<u8>, b: Seq<u8>)
    requires
        encode_segment(a) == encode_segment(b),
    ensures
        a == b,
    decreases a.len(),
{
    if a.len() == 0 {
        if b.len() > 0 {
            assert(encode_segment(b).len() > 0);
        }
        assert(a =~= b);
    } else {
        if b.len() == 0 {
            assert(encode_segment(a).len() > 0);
        }
        let ea = encode_byte(a[0]);
        let eb = encode_byte(b[0]);
        let ra = encode_segment(a.drop_first());
        let rb = encode_segment(b.drop_first());
        assert(encode_segment(a) == ea + ra);
        assert(encode_segment(b) == eb + rb);
        assert((ea + ra)[0] == ea[0]);
        assert((eb + rb)[0] == eb[0]);
        if is_unreserved(a[0]) {
            assert(ea[0] != '%');
            assert(is_unreserved(b[0]));
            assert(a[0] == b[0]);
        } else {
            assert(!is_unreserved(b[0]));
            assert((ea + ra)[1] == ea[1]);
            assert((eb + rb)[1] == eb[1]);
            assert((ea + ra)[2] == ea[2]);
            assert((eb + rb)[2] == eb[2]);
            assert(a[0] / 16 == b[0] / 16);
            assert(a[0] % 16 == b[0] % 16);
            assert(a[0] == b[0]);
        }
        assert(ra =~= (ea + ra).subrange(ea.len() as int, (ea + ra).len() as int));
        assert(rb =~= (eb + rb).subrange(eb.len() as int, (eb + rb).len() as int));
        lemma_encode_segment_injective(a.drop_first(), b.drop_first());
        assert(a =~= seq![a[0]] + a.drop_first());
        assert(b =~= seq![b[0]] + b.drop_first());
    }
}

/// The root of a namespace's keys: `/sorx/{tenant}/{sor}`, segments encoded.
pub open spec fn keyspace_root(tenant_id: Seq<char>, sor_id: Seq<char>) -> Seq<char> {
    "/sorx/"@ + encode_segment(encode_utf8(tenant_id)) + "/"@ + encode_segment(
        encode_utf8(sor_id),
    )
}

/// Builds ordered FDB byte keys under `/sorx/{tenant}/{sor}`.
/// Sequences are zero-padded to 20 digits so byte order == numeric order.
pub struct FdbKeyspace {
    root: String,
}

/// Width of the zero-padded event sequence.
pub open spec fn sequence_width() -> nat {
    20
}

impl FdbKeyspace {
    /// The key prefix shared by every key of this keyspace.
    pub closed spec fn root_text(&self) -> Seq<char> {
        self.root@
    }

    /// The text of the key `root + suffix`.
    pub open spec fn key_text(&self, suffix: Seq<char>) -> Seq<char> {
        self.root_text() + suffix
    }

    /// `/events/{stream}/` with the stream segment encoded.
    pub open spec fn stream_prefix(stream_id: Seq<char>) -> Seq<char> {
        "/events/"@ + encode_segment(encode_utf8(stream_id)) + "/"@
    }

    pub open spec fn event_key_text(&self, stream_id: Seq<char>, sequence: u64) -> Seq<char> {
        self.key_text(
            Self::stream_prefix(stream_id) + padded_decimal(sequence as nat, sequence_width()),
        )
    }

    pub open spec fn head_key_text(&self, stream_id: Seq<char>) -> Seq<char> {
        self.key_text(Self::stream_prefix(stream_id) + "_head"@)
    }

    pub fn new(namespace: &SorNamespace) -> (ks: Self)
        ensures
            ks.root_text() == keyspace_root(namespace.tenant_id@, namespace.sor_id@),
    {
        let mut root = String::new();
        push_str(&mut root, "/sorx/");
        let tenant = encode_key_segment(namespace.tenant_id.as_str());
        push_str(&mut root, tenant.as_str());
        push_str(&mut root, "/");
        let sor = encode_key_segment(namespace.sor_id.as_str());
        push_str(&mut root, sor.as_str());
        FdbKeyspace { root }
    }

    fn at(&self, suffix: &str) -> (key: Vec<u8>)
        ensures
            key@ == encode_utf8(self.key_text(suffix@)),
    {
        let mut text = self.root.clone();
        push_str(&mut text, suffix);
        utf8_bytes(&text)
    }

    pub fn canonical_event_key(&self, stream_id: &str, sequence: u64) -> (key: Vec<u8>)
        ensures
            key@ == encode_utf8(self.event_key_text(stream_id@, sequence)),
    {
        let mut suffix = String::new();
        push_str(&mut suffix, "/events/");
        push_str(&mut suffix, encode_key_segment(stream_id).as_str());
        push_str(&mut suffix, "/");
        let digits = padded_decimal_chars(sequence, 20);
        push_str(&mut suffix, crate::text::string_of(digits.as_slice()).as_str());
        self.at(suffix.as_str())
    }

    pub fn canonical_event_head_key(&self, stream_id: &str) -> (key: Vec<u8>)
        ensures
            key@ == encode_utf8(self.head_key_text(stream_id@)),
    {
        let mut suffix = String::new();
        push_str(&mut suffix, "/events/");
        push_str(&mut suffix, encode_key_segment(stream_id).as_str());
        push_str(&mut suffix, "/");
        push_str(&mut suffix, "_head");
        self.at(suffix.as_str())
    }

    /// The half-open byte range `[lo, hi)` holding every event key of a stream:
    /// `lo` ends in `/0` and `hi` in `/:` (`:` sorts just after `9` and
    /// before the `_` of the head key).
    pub fn canonical_event_stream_range(&self, stream_id: &str) -> (range: (Vec<u8>, Vec<u8>))
        ensures
            range.0@ == encode_utf8(self.key_text(Self::stream_prefix(stream_id@) + "0"@)),
            range.1@ == encode_utf8(self.key_text(Self::stream_prefix(stream_id@) + ":"@)),
    {
        let enc = encode_key_segment(stream_id);
        let mut lo = String::new();
        push_str(&mut lo, "/events/");
        push_str(&mut lo, enc.as_str());
        push_str(&mut lo, "/");
        let mut hi = lo.clone();
        push_str(&mut lo, "0");
        push_str(&mut hi, ":");
        (self.at(lo.as_str()), self.at(hi.as_str()))
    }

    pub fn canonical_entity_key(&self, entity_type: &str, entity_id: &str) -> (key: Vec<u8>)
        ensures
            key@ == encode_utf8(
                self.key_text("/entities/"@ + entity_type@ + seq!['\u{1f}'] + entity_id@),
            ),
    {
        let mut suffix = String::new();
        push_str(&mut suffix, "/entities/");
        push_str(&mut suffix, entity_type);
        push_char(&mut suffix, '\u{1f}');
        push_str(&mut suffix, entity_id);
        assert(suffix@ =~= "/entities/"@ + entity_type@ + seq!['\u{1f}'] + entity_id@);
        self.at(suffix.as_str())
    }

    pub fn edge_out_key(&self, relationship_type: &str, from: &str, to: &str) -> (key: Vec<u8>)
        ensures
            key@ == encode_utf8(
                self.key_text(
                    "/edges/out/"@ + relationship_type@ + seq!['\u{1f}'] + from@ + seq!['\u{1f}']
                        + to@,
                ),
            ),
    {
        let mut suffix = String::new();
        push_str(&mut suffix, "/edges/out/");
        push_str(&mut suffix, relationship_type);
        push_char(&mut suffix, '\u{1f}');
        push_str(&mut suffix, from);
        push_char(&mut suffix, '\u{1f}');
        push_str(&mut suffix, to);
        assert(suffix@ =~= "/edges/out/"@ + relationship_type@ + seq!['\u{1f}'] + from@ + seq!['\u{1f}'] + to@);
        self.at(suffix.as_str())
    }

    pub fn edge_in_key(&self, relationship_type: &str, to: &str, from: &str) -> (key: Vec<u8>)
        ensures
            key@ == encode_utf8(
                self.key_text(
                    "/edges/in/"@ + relationship_type@ + seq!['\u{1f}'] + to@ + seq!['\u{1f}']
                        + from@,
                ),
            ),
    {
        let mut suffix = String::new();
        push_str(&mut suffix, "/edges/in/");
        push_str(&mut suffix, relationship_type);
        push_char(&mut suffix, '\u{1f}');
        push_str(&mut suffix, to);
        push_char(&mut suffix, '\u{1f}');
        push_str(&mut suffix, from);
        assert(suffix@ =~= "/edges/in/"@ + relationship_type@ + seq!['\u{1f}'] + to@ + seq!['\u{1f}'] + from@);
        self.at(suffix.as_str())
    }

    pub fn idempotency_key(&self, idem: &str) -> (key: Vec<u8>)
        ensures
            key@ == encode_utf8(self.key_text("/idempotency/"@ + idem@)),
    {
        let mut suffix = String::new();
        push_str(&mut suffix, "/idempotency/");
        push_str(&mut suffix, idem);
        self.at(suffix.as_str())
    }

    /// Key for an entity link, scoped by the linked entity token, the source
    /// reference, and the match kind so distinct links to the same entity do
    /// not collide while re-linking the same (entity, source, match) is
    /// idempotent.
    pub fn entity_link_key(&self, entity_token: &str, source_ref: &str, match_kind: &str) -> (key:
        Vec<u8>)
        ensures
            key@ == encode_utf8(
                self.key_text(
                    "/links/"@ + entity_token@ + seq!['\u{1f}'] + source_ref@ + seq!['\u{1f}']
                        + match_kind@,
                ),
            ),
    {
        let mut suffix = String::new();
        push_str(&mut suffix, "/links/");
        push_str(&mut suffix, entity_token);
        push_char(&mut suffix, '\u{1f}');
        push_str(&mut suffix, source_ref);
        push_char(&mut suffix, '\u{1f}');
        push_str(&mut suffix, match_kind);
        assert(suffix@ =~= "/links/"@ + entity_token@ + seq!['\u{1f}'] + source_ref@ + seq!['\u{1f}'] + match_kind@);
        self.at(suffix.as_str())
    }

    pub fn projection_key(&self, name: &str, key: &str) -> (out: Vec<u8>)
        ensures
            out@ == encode_utf8(self.key_text("/projections/"@ + name@ + seq!['\u{1f}'] + key@)),
    {
        let mut suffix = String::new();
        push_str(&mut suffix, "/projections/");
        push_str(&mut suffix, name);
        push_char(&mut suffix, '\u{1f}');
        push_str(&mut suffix, key);
        assert(suffix@ =~= "/projections/"@ + name@ + seq!['\u{1f}'] + key@);
        self.at(suffix.as_str())
    }

    pub fn checkpoint_key(&self, name: &str) -> (key: Vec<u8>)
        ensures
            key@ == encode_utf8(self.key_text("/checkpoints/"@ + name@)),
    {
        let mut suffix = String::new();
        push_str(&mut suffix, "/checkpoints/");
        push_str(&mut suffix, name);
        self.at(suffix.as_str())
    }
}


/// Every `u64` fits in the 20-digit sequence field.
proof fn lemma_u64_below_pow10_width(n: u64)
    ensures
        (n as nat) < pow10(sequence_width()),
{
    reveal_with_fuel(pow10, 21);
    assert(pow10(20) == 100000000000000000000nat);
}

/// The digits of a sequence number are ASCII.
proof fn lemma_sequence_digits_ascii(n: u64)
    ensures
        is_ascii_chars(padded_decimal(n as nat, sequence_width())),
        padded_decimal(n as nat, sequence_width()).len() == 20,
        '0' <= padded_decimal(n as nat, sequence_width())[0] <= '9',
{
    lemma_padded_decimal_digits(n as nat, sequence_width());
    let d = padded_decimal(n as nat, sequence_width());
    assert forall|i: int| 0 <= i < d.len() implies '\0' <= #[trigger] d[i] <= '\u{7f}' by {
        assert('0' <= d[i] <= '9');
    }
}

/// Byte comparison of two keys that share the text `p` reduces to their tails.
proof fn lemma_shared_prefix_keys(p: Seq<char>, x: Seq<char>, y: Seq<char>)
    requires
        is_ascii_chars(x),
        is_ascii_chars(y),
    ensures
        bytes_lt(encode_utf8(p + x), encode_utf8(p + y)) == chars_lt(x, y),
{
    lemma_encode_utf8_concat(p, x);
    lemma_encode_utf8_concat(p, y);
    lemma_bytes_lt_common_prefix(encode_utf8(p), encode_utf8(x), encode_utf8(y));
    lemma_ascii_bytes_lt(x, y);
}

proof fn lemma_chars_lt_irreflexive_local(a: Seq<char>)
    ensures
        !chars_lt(a, a),
{
    crate::text::lemma_chars_lt_irreflexive(a);
}

impl FdbKeyspace {
    /// Event keys of one stream sort exactly as their sequence numbers do.
    pub proof fn lemma_event_keys_ordered_by_sequence(&self, stream_id: Seq<char>, a: u64, b: u64)
        ensures
            bytes_lt(
                encode_utf8(self.event_key_text(stream_id, a)),
                encode_utf8(self.event_key_text(stream_id, b)),
            ) == (a < b),
    {
        let p = self.root_text() + Self::stream_prefix(stream_id);
        let da = padded_decimal(a as nat, sequence_width());
        let db = padded_decimal(b as nat, sequence_width());
        assert(self.event_key_text(stream_id, a) =~= p + da);
        assert(self.event_key_text(stream_id, b) =~= p + db);
        lemma_sequence_digits_ascii(a);
        lemma_sequence_digits_ascii(b);
        lemma_shared_prefix_keys(p, da, db);
        lemma_u64_below_pow10_width(a);
        lemma_u64_below_pow10_width(b);
        if a < b {
            lemma_padded_decimal_order(a as nat, b as nat, sequence_width());
        } else if a == b {
            lemma_chars_lt_irreflexive_local(da);
        } else {
            lemma_padded_decimal_order(b as nat, a as nat, sequence_width());
            crate::text::lemma_chars_lt_asymmetric(db, da);
        }
    }

    /// Every event key of a stream lies inside the stream's half-open range
    /// `[lo, hi)`, strictly above `lo`.
    pub proof fn lemma_stream_range_brackets_events(&self, stream_id: Seq<char>, n: u64)
        ensures
            bytes_lt(
                encode_utf8(self.key_text(Self::stream_prefix(stream_id) + "0"@)),
                encode_utf8(self.event_key_text(stream_id, n)),
            ),
            bytes_lt(
                encode_utf8(self.event_key_text(stream_id, n)),
                encode_utf8(self.key_text(Self::stream_prefix(stream_id) + ":"@)),
            ),
    {
        reveal_strlit("0");
        reveal_strlit(":");
        let p = self.root_text() + Self::stream_prefix(stream_id);
        let d = padded_decimal(n as nat, sequence_width());
        lemma_sequence_digits_ascii(n);
        assert(self.event_key_text(stream_id, n) =~= p + d);
        assert(self.key_text(Self::stream_prefix(stream_id) + "0"@) =~= p + "0"@);
        assert(self.key_text(Self::stream_prefix(stream_id) + ":"@) =~= p + ":"@);
        assert(is_ascii_chars("0"@));
        assert(is_ascii_chars(":"@));
        lemma_shared_prefix_keys(p, "0"@, d);
        lemma_shared_prefix_keys(p, d, ":"@);
        assert(("0"@).len() == 1 && ("0"@)[0] == '0');
        if d[0] == '0' {
            assert(("0"@).drop_first() =~= Seq::<char>::empty());
            assert(d.drop_first().len() > 0);
            assert(chars_lt(("0"@).drop_first(), d.drop_first()));
        }
        assert(chars_lt("0"@, d));
    }

    /// The stream head key sorts strictly above the stream range's upper
    /// bound, so range scans never return it.
    pub proof fn lemma_head_key_above_stream_range(&self, stream_id: Seq<char>)
        ensures
            bytes_lt(
                encode_utf8(self.key_text(Self::stream_prefix(stream_id) + ":"@)),
                encode_utf8(self.head_key_text(stream_id)),
            ),
    {
        reveal_strlit(":");
        reveal_strlit("_head");
        let p = self.root_text() + Self::stream_prefix(stream_id);
        assert(self.head_key_text(stream_id) =~= p + "_head"@);
        assert(self.key_text(Self::stream_prefix(stream_id) + ":"@) =~= p + ":"@);
        assert(is_ascii_chars("_head"@));
        assert(is_ascii_chars(":"@));
        lemma_shared_prefix_keys(p, ":"@, "_head"@);
    }

    /// Idempotency markers and outgoing edges live in distinct subspaces.
    pub proof fn lemma_idempotency_and_edge_keys_differ(
        &self,
        idem: Seq<char>,
        relationship_type: Seq<char>,
        from: Seq<char>,
        to: Seq<char>,
    )
        ensures
            encode_utf8(self.key_text("/idempotency/"@ + idem)) != encode_utf8(
                self.key_text(
                    "/edges/out/"@ + relationship_type + seq!['\u{1f}'] + from + seq!['\u{1f}']
                        + to,
                ),
            ),
    {
        reveal_strlit("/idempotency/");
        reveal_strlit("/edges/out/");
        let r = self.root_text();
        let x = "/idempotency/"@ + idem;
        let y = "/edges/out/"@ + relationship_type + seq!['\u{1f}'] + from + seq!['\u{1f}'] + to;
        lemma_encode_utf8_concat(r, x);
        lemma_encode_utf8_concat(r, y);
        lemma_encode_utf8_concat("/idempotency/"@, idem);
        let ey_rest = relationship_type + seq!['\u{1f}'] + from + seq!['\u{1f}'] + to;
        assert(y =~= "/edges/out/"@ + ey_rest);
        lemma_encode_utf8_concat("/edges/out/"@, ey_rest);
        assert(is_ascii_chars("/idempotency/"@));
        assert(is_ascii_chars("/edges/out/"@));
        is_ascii_chars_encode_utf8("/idempotency/"@);
        is_ascii_chars_encode_utf8("/edges/out/"@);
        let k: int = encode_utf8(r).len() as int + 1;
        let bx = encode_utf8(r) + (encode_utf8("/idempotency/"@) + encode_utf8(idem));
        let by = encode_utf8(r) + (encode_utf8("/edges/out/"@) + encode_utf8(ey_rest));
        assert(bx[k] == ('i' as u8));
        assert(by[k] == ('e' as u8));
    }

    /// Incoming edges live in their own subspace: an incoming-edge key never
    /// equals an outgoing-edge key or an idempotency marker.
    pub proof fn lemma_incoming_edge_keys_differ(
        &self,
        t: Seq<char>,
        to: Seq<char>,
        from: Seq<char>,
        t2: Seq<char>,
        from2: Seq<char>,
        to2: Seq<char>,
        idem: Seq<char>,
    )
        ensures
            encode_utf8(
                self.key_text("/edges/in/"@ + t + seq!['\u{1f}'] + to + seq!['\u{1f}'] + from),
            ) != encode_utf8(
                self.key_text("/edges/out/"@ + t2 + seq!['\u{1f}'] + from2 + seq!['\u{1f}'] + to2),
            ),
            encode_utf8(
                self.key_text("/edges/in/"@ + t + seq!['\u{1f}'] + to + seq!['\u{1f}'] + from),
            ) != encode_utf8(self.key_text("/idempotency/"@ + idem)),
    {
        reveal_strlit("/idempotency/");
        reveal_strlit("/edges/out/");
        reveal_strlit("/edges/in/");
        let r = self.root_text();
        let in_rest = t + seq!['\u{1f}'] + to + seq!['\u{1f}'] + from;
        let out_rest = t2 + seq!['\u{1f}'] + from2 + seq!['\u{1f}'] + to2;
        let x = "/edges/in/"@ + in_rest;
        let y = "/edges/out/"@ + out_rest;
        let z = "/idempotency/"@ + idem;
        assert(x =~= "/edges/in/"@ + t + seq!['\u{1f}'] + to + seq!['\u{1f}'] + from);
        assert(y =~= "/edges/out/"@ + t2 + seq!['\u{1f}'] + from2 + seq!['\u{1f}'] + to2);
        lemma_encode_utf8_concat(r, x);
        lemma_encode_utf8_concat(r, y);
        lemma_encode_utf8_concat(r, z);
        lemma_encode_utf8_concat("/edges/in/"@, in_rest);
        lemma_encode_utf8_concat("/edges/out/"@, out_rest);
        lemma_encode_utf8_concat("/idempotency/"@, idem);
        assert(is_ascii_chars("/idempotency/"@));
        assert(is_ascii_chars("/edges/out/"@));
        assert(is_ascii_chars("/edges/in/"@));
        is_ascii_chars_encode_utf8("/idempotency/"@);
        is_ascii_chars_encode_utf8("/edges/out/"@);
        is_ascii_chars_encode_utf8("/edges/in/"@);
        let n: int = encode_utf8(r).len() as int;
        let bx = encode_utf8(r) + (encode_utf8("/edges/in/"@) + encode_utf8(in_rest));
        let by = encode_utf8(r) + (encode_utf8("/edges/out/"@) + encode_utf8(out_rest));
        let bz = encode_utf8(r) + (encode_utf8("/idempotency/"@) + encode_utf8(idem));
        assert(bx[n + 7] == ('i' as u8));
        assert(by[n + 7] == ('o' as u8));
        assert(bx[n + 1] == ('e' as u8));
        assert(bz[n + 1] == ('i' as u8));
    }
}

/// Splitting at the last unit separator: when neither tail holds one, equal
/// joins have equal heads and tails.
proof fn lemma_split_at_last_separator(a: Seq<char>, b: Seq<char>, a2: Seq<char>, b2: Seq<char>)
    requires
        a + seq!['\u{1f}'] + b == a2 + seq!['\u{1f}'] + b2,
        !b.contains('\u{1f}'),
        !b2.contains('\u{1f}'),
    ensures
        a == a2,
        b == b2,
{
    let x = a + seq!['\u{1f}'] + b;
    let x2 = a2 + seq!['\u{1f}'] + b2;
    if b.len() < b2.len() {
        let i = x.len() - b.len() - 1;
        assert(x[i] == '\u{1f}');
        assert(x2[i] == b2[i - a2.len() - 1]);
        assert(b2.contains(b2[i - a2.len() - 1]));
    } else if b2.len() < b.len() {
        let i = x2.len() - b2.len() - 1;
        assert(x2[i] == '\u{1f}');
        assert(x[i] == b[i - a.len() - 1]);
        assert(b.contains(b[i - a.len() - 1]));
    }
    assert(b =~= x.subrange(a.len() as int + 1, x.len() as int));
    assert(b2 =~= x2.subrange(a2.len() as int + 1, x2.len() as int));
    assert(a =~= x.subrange(0, a.len() as int));
    assert(a2 =~= x2.subrange(0, a2.len() as int));
}

impl FdbKeyspace {
    /// Entity link keys are injective in the source and match kind, and in
    /// the entity token, when source and match kind hold no unit separator.
    pub proof fn lemma_entity_link_key_injective(
        &self,
        e: Seq<char>,
        source: Seq<char>,
        kind: Seq<char>,
        e2: Seq<char>,
        source2: Seq<char>,
        kind2: Seq<char>,
    )
        requires
            !source.contains('\u{1f}'),
            !kind.contains('\u{1f}'),
            !source2.contains('\u{1f}'),
            !kind2.contains('\u{1f}'),
            encode_utf8(self.key_text("/links/"@ + e + seq!['\u{1f}'] + source + seq!['\u{1f}'] + kind))
                == encode_utf8(self.key_text("/links/"@ + e2 + seq!['\u{1f}'] + source2 + seq!['\u{1f}'] + kind2)),
        ensures
            e == e2,
            source == source2,
            kind == kind2,
    {
        let k1 = self.key_text("/links/"@ + e + seq!['\u{1f}'] + source + seq!['\u{1f}'] + kind);
        let k2 = self.key_text("/links/"@ + e2 + seq!['\u{1f}'] + source2 + seq!['\u{1f}'] + kind2);
        encode_utf8_decode_utf8(k1);
        encode_utf8_decode_utf8(k2);
        assert(k1 == k2);
        let p = self.root_text() + "/links/"@ + e;
        let p2 = self.root_text() + "/links/"@ + e2;
        assert(k1 =~= (p + seq!['\u{1f}'] + source) + seq!['\u{1f}'] + kind);
        assert(k2 =~= (p2 + seq!['\u{1f}'] + source2) + seq!['\u{1f}'] + kind2);
        lemma_split_at_last_separator(p + seq!['\u{1f}'] + source, kind, p2 + seq!['\u{1f}'] + source2, kind2);
        lemma_split_at_last_separator(p, source, p2, source2);
        let n = (self.root_text() + "/links/"@).len();
        assert(e =~= p.subrange(n as int, p.len() as int));
        assert(e2 =~= p2.subrange(n as int, p2.len() as int));
    }
}

/// Comparison of texts is decided at the first position where they differ.
proof fn lemma_chars_lt_first_difference(a: Seq<char>, b: Seq<char>, i: int)
    requires
        0 <= i < a.len(),
        i < b.len(),
        a.take(i) == b.take(i),
        a[i] != b[i],
    ensures
        chars_lt(a, b) == (a[i] < b[i]),
    decreases i,
{
    if i > 0 {
        assert(a[0] == a.take(i)[0]);
        assert(b[0] == b.take(i)[0]);
        assert(a.drop_first().take(i - 1) =~= a.take(i).drop_first());
        assert(b.drop_first().take(i - 1) =~= b.take(i).drop_first());
        lemma_chars_lt_first_difference(a.drop_first(), b.drop_first(), i - 1);
    }
}

/// Two texts that differ somewhere within both have a first such position.
proof fn lemma_first_difference(a: Seq<char>, b: Seq<char>, j: int) -> (i: int)
    requires
        0 <= j < a.len(),
        j < b.len(),
        a[j] != b[j],
    ensures
        0 <= i <= j,
        a.take(i) == b.take(i),
        a[i] != b[i],
    decreases j,
{
    if a[0] != b[0] {
        assert(a.take(0) =~= b.take(0));
        0
    } else {
        let k = lemma_first_difference(a.drop_first(), b.drop_first(), j - 1);
        assert(a.take(k + 1) =~= seq![a[0]] + a.drop_first().take(k));
        assert(b.take(k + 1) =~= seq![b[0]] + b.drop_first().take(k));
        k + 1
    }
}

/// The `/`-terminated segments of two distinct streams differ at some
/// position within both.
proof fn lemma_stream_segments_differ(s: Seq<char>, s2: Seq<char>) -> (j: int)
    requires
        s != s2,
    ensures
        0 <= j < (encode_segment(encode_utf8(s)) + "/"@).len(),
        j < (encode_segment(encode_utf8(s2)) + "/"@).len(),
        (encode_segment(encode_utf8(s)) + "/"@)[j] != (encode_segment(encode_utf8(s2)) + "/"@)[j],
{
    reveal_strlit("/");
    let e = encode_segment(encode_utf8(s));
    let e2 = encode_segment(encode_utf8(s2));
    lemma_encode_segment_safe(encode_utf8(s));
    lemma_encode_segment_safe(encode_utf8(s2));
    encode_utf8_decode_utf8(s);
    encode_utf8_decode_utf8(s2);
    if e == e2 {
        lemma_encode_segment_injective(encode_utf8(s), encode_utf8(s2));
    }
    let q = e + "/"@;
    let q2 = e2 + "/"@;
    if e.len() < e2.len() {
        assert(q[e.len() as int] == '/');
        assert(q2[e.len() as int] == e2[e.len() as int]);
        assert(e2.contains(e2[e.len() as int]));
        e.len() as int
    } else if e2.len() < e.len() {
        assert(q2[e2.len() as int] == '/');
        assert(q[e2.len() as int] == e[e2.len() as int]);
        assert(e.contains(e[e2.len() as int]));
        e2.len() as int
    } else {
        assert(e != e2);
        if forall|k: int| 0 <= k < e.len() ==> e[k] == e2[k] {
            assert(e =~= e2);
        }
        let k = choose|k: int| 0 <= k < e.len() && e[k] != e2[k];
        assert(q[k] == e[k] && q2[k] == e2[k]);
        k
    }
}

impl FdbKeyspace {
    /// A stream's range `[lo, hi)` holds no event key of another stream, so a
    /// range scan sees only the stream's own events.
    pub proof fn lemma_stream_range_excludes_other_streams(&self, s: Seq<char>, s2: Seq<char>, n: u64)
        requires
            s != s2,
        ensures
            ({
                let lo = encode_utf8(self.key_text(Self::stream_prefix(s) + "0"@));
                let hi = encode_utf8(self.key_text(Self::stream_prefix(s) + ":"@));
                let k = encode_utf8(self.event_key_text(s2, n));
                !((bytes_lt(lo, k) || lo == k) && bytes_lt(k, hi))
            }),
    {
        reveal_strlit("/events/");
        reveal_strlit("/");
        reveal_strlit("0");
        reveal_strlit(":");
        let r = self.root_text();
        let e = encode_segment(encode_utf8(s));
        let e2 = encode_segment(encode_utf8(s2));
        lemma_encode_segment_safe(encode_utf8(s));
        lemma_encode_segment_safe(encode_utf8(s2));
        let q = e + "/"@;
        let q2 = e2 + "/"@;
        let j = lemma_stream_segments_differ(s, s2);
        let iq = lemma_first_difference(q, q2, j);
        let d = padded_decimal(n as nat, sequence_width());
        lemma_sequence_digits_ascii(n);
        let x = "/events/"@ + q + "0"@;
        let y = "/events/"@ + q2 + d;
        let z = "/events/"@ + q + ":"@;
        assert(Self::stream_prefix(s) + "0"@ =~= x);
        assert(Self::stream_prefix(s) + ":"@ =~= z);
        assert(self.event_key_text(s2, n) =~= r + y);
        let i = 8 + iq;
        assert(x[i] == q[iq] && z[i] == q[iq] && y[i] == q2[iq]);
        assert(x.take(i) =~= "/events/"@ + q.take(iq));
        assert(z.take(i) =~= "/events/"@ + q.take(iq));
        assert(y.take(i) =~= "/events/"@ + q2.take(iq));
        assert(is_ascii_chars(x) && is_ascii_chars(y) && is_ascii_chars(z)) by {
            assert forall|t: int| 0 <= t < x.len() implies '\0' <= #[trigger] x[t] <= '\u{7f}' by {
                if 8 <= t < 8 + e.len() {
                    assert(x[t] == e[t - 8]);
                    assert(e.contains(e[t - 8]));
                }
            }
            assert forall|t: int| 0 <= t < z.len() implies '\0' <= #[trigger] z[t] <= '\u{7f}' by {
                if 8 <= t < 8 + e.len() {
                    assert(z[t] == e[t - 8]);
                    assert(e.contains(e[t - 8]));
                }
            }
            assert forall|t: int| 0 <= t < y.len() implies '\0' <= #[trigger] y[t] <= '\u{7f}' by {
                if 8 <= t < 8 + e2.len() {
                    assert(y[t] == e2[t - 8]);
                    assert(e2.contains(e2[t - 8]));
                } else if t >= 9 + e2.len() {
                    assert(y[t] == d[t - 9 - e2.len()]);
                }
            }
        }
        lemma_shared_prefix_keys(r, x, y);
        lemma_shared_prefix_keys(r, y, z);
        lemma_chars_lt_first_difference(x, y, i);
        lemma_chars_lt_first_difference(y, z, i);
        encode_utf8_decode_utf8(r + x);
        encode_utf8_decode_utf8(r + y);
        if encode_utf8(r + x) == encode_utf8(r + y) {
            assert((r + x)[r.len() + i] == x[i]);
            assert((r + y)[r.len() + i] == y[i]);
        }
    }
}

/// Distinct `(tenant, sor)` pairs never share a keyspace root.
pub proof fn lemma_keyspace_roots_distinct(t1: Seq<char>, s1: Seq<char>, t2: Seq<char>, s2: Seq<char>)
    requires
        keyspace_root(t1, s1) == keyspace_root(t2, s2),
    ensures
        t1 == t2,
        s1 == s2,
{
    reveal_strlit("/sorx/");
    reveal_strlit("/");
    let e1 = encode_segment(encode_utf8(t1));
    let e2 = encode_segment(encode_utf8(t2));
    let f1 = encode_segment(encode_utf8(s1));
    let f2 = encode_segment(encode_utf8(s2));
    lemma_encode_segment_safe(encode_utf8(t1));
    lemma_encode_segment_safe(encode_utf8(t2));
    let r1 = "/sorx/"@ + e1 + "/"@ + f1;
    let r2 = "/sorx/"@ + e2 + "/"@ + f2;
    assert(r1 == r2);
    if e1.len() < e2.len() {
        assert(r1[(6 + e1.len()) as int] == '/');
        assert(r2[(6 + e1.len()) as int] == e2[e1.len() as int]);
        assert(e2.contains(e2[e1.len() as int]));
    } else if e2.len() < e1.len() {
        assert(r2[(6 + e2.len()) as int] == '/');
        assert(r1[(6 + e2.len()) as int] == e1[e2.len() as int]);
        assert(e1.contains(e1[e2.len() as int]));
    }
    assert(e1.len() == e2.len());
    assert(e1 =~= r1.subrange(6, (6 + e1.len()) as int));
    assert(e2 =~= r2.subrange(6, (6 + e2.len()) as int));
    assert(f1 =~= r1.subrange((7 + e1.len()) as int, r1.len() as int));
    assert(f2 =~= r2.subrange((7 + e2.len()) as int, r2.len() as int));
    lemma_encode_segment_injective(encode_utf8(t1), encode_utf8(t2));
    lemma_encode_segment_injective(encode_utf8(s1), encode_utf8(s2));
    encode_utf8_decode_utf8(t1);
    encode_utf8_decode_utf8(t2);
    encode_utf8_decode_utf8(s1);
    encode_utf8_decode_utf8(s2);
}

} // verus!
