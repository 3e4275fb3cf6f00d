//! Written addresses read back as themselves, and canonical authorities stay as
//! they are.

use crate::ip_address::{
    IpModel, SocketModel, digits_within, double_colon, group_list, group_text, group_value,
    ip_address, ip_text, ipv4_mapped, ipv4_octets, ipv4_text, ipv6_groups, ipv6_text, joined_groups,
    lemma_double_colon_absent, longest_zero_run, octet_text, paired_octets, socket_address,
    socket_text, socket_v4, socket_v6, zero_run,
};
use crate::host_name::{dns_name, lemma_label_chars, valid_label};
use crate::http_backend_pool::{authority_breaker, canonical_authority};
use crate::number::{
    all_digits, decimal, digit_value, digits_value, law_decimal_reads_back, lemma_numeral, numeral,
    parsed_number,
};
use crate::text::{
    all_ascii, ascii_alphanumeric, first_index, lemma_first_index, lemma_first_index_unique,
    lemma_last_index, lemma_last_index_unique, lemma_pieces_single, last_index,
    lemma_lower_idempotent, lemma_trim_end_char, lemma_trim_fixed, lemma_utf8_len_ascii,
    lemma_utf8_len_bounds, pieces, trim, trim_end_char, utf8_len,
};
use vstd::arithmetic::power::pow;
use vstd::prelude::*;

verus! {

/// A text whose first piece is given.
proof fn lemma_pieces_cons(a: Seq<char>, rest: Seq<char>, sep: char)
    requires
        !a.contains(sep),
    ensures
        pieces(a + seq![sep] + rest, sep) == seq![a] + pieces(rest, sep),
{
    let t = a + seq![sep] + rest;
    assert(t[a.len() as int] == sep);
    assert forall|j: int| 0 <= j < a.len() implies t[j] != sep by {
        assert(t[j] == a[j]);
        assert(a.contains(a[j]));
    }
    lemma_first_index_unique(t, sep, a.len() as int);
    assert(t.take(a.len() as int) =~= a);
    assert(t.skip(a.len() as int + 1) =~= rest);
}

/// A text whose last piece is given.
proof fn lemma_pieces_snoc(s: Seq<char>, b: Seq<char>, sep: char)
    requires
        !b.contains(sep),
    ensures
        pieces(s + seq![sep] + b, sep) == pieces(s, sep).push(b),
    decreases s.len(),
{
    let i = first_index(s, sep);
    lemma_first_index(s, sep);
    if i < s.len() {
        let a = s.take(i);
        let rest = s.skip(i + 1);
        assert forall|j: int| 0 <= j < a.len() implies a[j] != sep by {
            assert(a[j] == s[j]);
        }
        assert(s + seq![sep] + b =~= a + seq![sep] + (rest + seq![sep] + b));
        lemma_pieces_cons(a, rest + seq![sep] + b, sep);
        lemma_pieces_snoc(rest, b, sep);
        assert(pieces(s, sep) =~= seq![a] + pieces(rest, sep));
        assert(pieces(s + seq![sep] + b, sep) =~= pieces(s, sep).push(b));
    } else {
        lemma_pieces_cons(s, b, sep);
        lemma_pieces_single(b, sep);
        assert(pieces(s, sep) =~= seq![s]);
        assert(pieces(s + seq![sep] + b, sep) =~= pieces(s, sep).push(b));
    }
}

/// Every character of a text is the separator or stands in a piece.
proof fn lemma_pieces_cover(s: Seq<char>, sep: char, i: int)
    requires
        0 <= i < s.len(),
        s[i] != sep,
    ensures
        exists|j: int|
            0 <= j < pieces(s, sep).len() && (#[trigger] pieces(s, sep)[j]).contains(s[i]),
    decreases s.len(),
{
    let k = first_index(s, sep);
    lemma_first_index(s, sep);
    let p = pieces(s, sep);
    if k < s.len() {
        let rest = s.skip(k + 1);
        if i < k {
            assert(p[0] == s.take(k));
            assert(s.take(k)[i] == s[i]);
            assert(p[0].contains(s[i]));
        } else {
            lemma_pieces_cover(rest, sep, i - k - 1);
            assert(rest[i - k - 1] == s[i]);
            let j = choose|j: int|
                0 <= j < pieces(rest, sep).len() && (#[trigger] pieces(rest, sep)[j]).contains(
                    s[i],
                );
            assert(p[j + 1] == pieces(rest, sep)[j]);
        }
    } else {
        assert(p[0] == s);
        assert(p[0].contains(s[i]));
    }
}

proof fn lemma_numeral_len(n: nat, radix: nat, k: nat)
    requires
        2 <= radix,
        1 <= k,
        n < pow(radix as int, k),
    ensures
        numeral(n, radix).len() <= k,
    decreases k,
{
    if n >= radix {
        reveal(pow);
        if k == 1 {
            assert(pow(radix as int, 1) == radix * pow(radix as int, 0));
            assert(pow(radix as int, 0) == 1);
            assert(radix * 1 == radix);
            assert(false);
        }
        let m = (k - 1) as nat;
        let p = pow(radix as int, m);
        assert(pow(radix as int, k) == radix * p);
        assert(n / radix < p) by (nonlinear_arith)
            requires
                n < radix * p,
                radix >= 2,
        ;
        lemma_numeral_len(n / radix, radix, m);
    }
}

proof fn lemma_powers()
    ensures
        pow(10, 3) == 1000,
        pow(10, 5) == 100000,
        pow(10, 10) == 10000000000,
        pow(16, 4) == 65536,
{
    reveal(pow);
    reveal_with_fuel(pow, 12);
}

/// A digit is a letter or a number.
proof fn lemma_digits_are_alphanumeric(s: Seq<char>, radix: nat)
    requires
        all_digits(s, radix),
        radix <= 36,
    ensures
        forall|i: int| 0 <= i < s.len() ==> ascii_alphanumeric(#[trigger] s[i]),
{
    assert forall|i: int| 0 <= i < s.len() implies ascii_alphanumeric(#[trigger] s[i]) by {
        assert(digit_value(s[i]) < radix);
    }
}

/// What is known of the numeral of an octet, a group or a port.
proof fn lemma_short_numeral(n: nat, radix: nat)
    requires
        2 <= radix <= 16,
    ensures
        numeral(n, radix).len() > 0,
        all_digits(numeral(n, radix), radix),
        digits_value(numeral(n, radix), radix) == n,
        n > 0 ==> numeral(n, radix)[0] != '0',
        n < radix ==> numeral(n, radix).len() == 1,
        forall|c: char| !ascii_alphanumeric(c) ==> !numeral(n, radix).contains(c),
{
    lemma_numeral(n, radix);
    lemma_digits_are_alphanumeric(numeral(n, radix), radix);
}

proof fn lemma_octet(n: u8)
    ensures
        octet_text(decimal(n as nat)),
        digits_value(decimal(n as nat), 10) == n,
        !decimal(n as nat).contains('.'),
        !decimal(n as nat).contains(':'),
{
    lemma_short_numeral(n as nat, 10);
    lemma_powers();
    lemma_numeral_len(n as nat, 10, 3);
}

/// The text of an IPv4 address reads back, and holds no characters but digits
/// and dots.
proof fn lemma_ipv4_text(o: Seq<u8>)
    requires
        o.len() == 4,
    ensures
        ipv4_octets(ipv4_text(o)) == Some(o),
        0 < ipv4_text(o).len() <= 15,
        forall|i: int|
            0 <= i < ipv4_text(o).len() ==> ascii_alphanumeric(#[trigger] ipv4_text(o)[i])
                || ipv4_text(o)[i] == '.',
        ascii_alphanumeric(ipv4_text(o)[0]),
        ascii_alphanumeric(ipv4_text(o).last()),
        ipv4_text(o).contains('.'),
{
    let a = decimal(o[0] as nat);
    let b = decimal(o[1] as nat);
    let c = decimal(o[2] as nat);
    let d = decimal(o[3] as nat);
    lemma_octet(o[0]);
    lemma_octet(o[1]);
    lemma_octet(o[2]);
    lemma_octet(o[3]);
    let dot = seq!['.'];
    let s = ipv4_text(o);
    assert(s =~= a + dot + (b + dot + (c + dot + d)));
    lemma_pieces_cons(a, b + dot + (c + dot + d), '.');
    lemma_pieces_cons(b, c + dot + d, '.');
    lemma_pieces_cons(c, d, '.');
    lemma_pieces_single(d, '.');
    assert(pieces(s, '.') =~= seq![a, b, c, d]);
    assert(ipv4_octets(s)->0 =~= o);
    lemma_digits_are_alphanumeric(a, 10);
    lemma_digits_are_alphanumeric(b, 10);
    lemma_digits_are_alphanumeric(c, 10);
    lemma_digits_are_alphanumeric(d, 10);
    assert(s[0] == a[0]);
    assert(s.last() == d.last());
    assert(s[a.len() as int] == '.');
    assert forall|i: int| 0 <= i < s.len() implies ascii_alphanumeric(#[trigger] s[i]) || s[i]
        == '.' by {
        let x = a.len() as int;
        let y = x + 1 + b.len();
        let z = y + 1 + c.len();
        if i < x {
            assert(s[i] == a[i]);
        } else if x < i < y {
            assert(s[i] == b[i - x - 1]);
        } else if y < i < z {
            assert(s[i] == c[i - y - 1]);
        } else if z < i {
            assert(s[i] == d[i - z - 1]);
        }
    }
}

/// A text of an IPv4 address holds no characters but digits and dots.
proof fn lemma_ipv4_chars(s: Seq<char>)
    requires
        ipv4_octets(s) is Some,
    ensures
        forall|i: int| 0 <= i < s.len() ==> ascii_alphanumeric(#[trigger] s[i]) || s[i] == '.',
{
    let p = pieces(s, '.');
    assert forall|i: int| 0 <= i < s.len() implies ascii_alphanumeric(#[trigger] s[i]) || s[i]
        == '.' by {
        if s[i] != '.' {
            lemma_pieces_cover(s, '.', i);
            let j = choose|j: int| 0 <= j < p.len() && (#[trigger] p[j]).contains(s[i]);
            assert(octet_text(p[j]));
            lemma_digits_are_alphanumeric(p[j], 10);
        }
    }
}

proof fn lemma_group(v: u16)
    ensures
        group_text(numeral(v as nat, 16)),
        group_value(numeral(v as nat, 16)) == v,
        !numeral(v as nat, 16).contains(':'),
        forall|i: int|
            0 <= i < numeral(v as nat, 16).len() ==> ascii_alphanumeric(
                #[trigger] numeral(v as nat, 16)[i],
            ),
{
    lemma_short_numeral(v as nat, 16);
    lemma_powers();
    lemma_numeral_len(v as nat, 16, 4);
    lemma_digits_are_alphanumeric(numeral(v as nat, 16), 16);
}

/// Groups separated by colons: their pieces, their characters, and that no two
/// colons meet.
proof fn lemma_joined(g: Seq<u16>)
    requires
        g.len() > 0,
    ensures
        joined_groups(g).len() > 0,
        joined_groups(g).len() <= 5 * g.len(),
        pieces(joined_groups(g), ':') == g.map_values(|v: u16| numeral(v as nat, 16)),
        ascii_alphanumeric(joined_groups(g)[0]),
        ascii_alphanumeric(joined_groups(g).last()),
        forall|i: int|
            0 <= i < joined_groups(g).len() ==> ascii_alphanumeric(#[trigger] joined_groups(g)[i])
                || joined_groups(g)[i] == ':',
        forall|i: int|
            0 <= i && i + 1 < joined_groups(g).len() ==> !(joined_groups(g)[i] == ':' && (
            #[trigger] joined_groups(g)[i + 1]) == ':'),
        g.len() > 1 ==> joined_groups(g).contains(':'),
    decreases g.len(),
{
    let s = joined_groups(g);
    let b = numeral(g.last() as nat, 16);
    lemma_group(g.last());
    if g.len() == 1 {
        lemma_pieces_single(b, ':');
        assert(pieces(s, ':') =~= g.map_values(|v: u16| numeral(v as nat, 16)));
    } else {
        let h = g.drop_last();
        let a = joined_groups(h);
        lemma_joined(h);
        lemma_pieces_snoc(a, b, ':');
        assert(s == a + seq![':'] + b);
        assert(pieces(s, ':') =~= g.map_values(|v: u16| numeral(v as nat, 16)));
        assert(s[a.len() as int] == ':');
        assert(s[0] == a[0]);
        assert(s.last() == b.last());
        assert forall|i: int| 0 <= i < s.len() implies ascii_alphanumeric(#[trigger] s[i]) || s[i]
            == ':' by {
            if i < a.len() {
                assert(s[i] == a[i]);
            } else if i > a.len() {
                assert(s[i] == b[i - a.len() - 1]);
            }
        }
        assert forall|i: int| 0 <= i && i + 1 < s.len() implies !(s[i] == ':' && (
        #[trigger] s[i + 1]) == ':') by {
            if i + 1 < a.len() {
                assert(s[i] == a[i] && s[i + 1] == a[i + 1]);
            } else if i + 1 == a.len() {
                assert(s[i] == a.last());
            } else if i == a.len() {
                assert(s[i + 1] == b[0]);
            } else {
                assert(s[i] == b[i - a.len() - 1]);
            }
        }
    }
}

/// A list of groups reads back.
proof fn lemma_group_list(g: Seq<u16>, embedded: bool)
    ensures
        group_list(joined_groups(g), embedded) == Some(g),
{
    let s = joined_groups(g);
    if g.len() == 0 {
        assert(Seq::<u16>::empty() =~= g);
    } else {
        lemma_joined(g);
        let p = pieces(s, ':');
        assert forall|i: int| 0 <= i < p.len() implies group_text(#[trigger] p[i]) && group_value(
            p[i],
        ) == g[i] by {
            lemma_group(g[i]);
        }
        let head = p.drop_last();
        assert forall|i: int| 0 <= i < head.len() implies group_text(#[trigger] head[i]) by {
            assert(head[i] == p[i]);
        }
        assert(group_text(p.last()));
        assert(p.map_values(|t: Seq<char>| group_value(t)) =~= g);
    }
}

proof fn lemma_zero_run(g: Seq<u16>, i: int)
    requires
        0 <= i <= g.len(),
    ensures
        i + zero_run(g, i) <= g.len(),
        forall|j: int| i <= j < i + zero_run(g, i) ==> g[j] == 0,
    decreases g.len() - i,
{
    if i < g.len() && g[i] == 0 {
        lemma_zero_run(g, i + 1);
    }
}

proof fn lemma_longest_zero_run(g: Seq<u16>, k: nat)
    requires
        k <= g.len(),
        g.len() > 0,
    ensures
        0 <= longest_zero_run(g, k) < g.len(),
    decreases k,
{
    if k > 0 {
        lemma_longest_zero_run(g, (k - 1) as nat);
    }
}

/// What is known of the characters of an IPv6 address.
pub open spec fn group_chars(s: Seq<char>) -> bool {
    forall|i: int|
        0 <= i < s.len() ==> ascii_alphanumeric(#[trigger] s[i]) || s[i] == ':' || s[i] == '.'
}

proof fn lemma_compressed(g: Seq<u16>)
    requires
        g.len() == 8,
        zero_run(g, longest_zero_run(g, 8)) > 1,
    ensures
        ({
            let start = longest_zero_run(g, 8);
            let run = zero_run(g, start);
            let s = joined_groups(g.take(start)) + "::"@ + joined_groups(g.skip(start + run));
            &&& ipv6_groups(s) == Some(g)
            &&& group_chars(s)
            &&& s.contains(':')
            &&& 0 < s.len() <= 42
        }),
{
    let start = longest_zero_run(g, 8);
    let run = zero_run(g, start);
    lemma_longest_zero_run(g, 8);
    lemma_zero_run(g, start);
    let head = g.take(start);
    let tail = g.skip(start + run);
    let a = joined_groups(head);
    let b = joined_groups(tail);
    reveal_strlit("::");
    let s = a + "::"@ + b;
    if head.len() > 0 {
        lemma_joined(head);
    }
    if tail.len() > 0 {
        lemma_joined(tail);
    }
    let n = a.len() as int;
    assert(s[n] == ':' && s[n + 1] == ':');
    assert forall|j: int| 0 <= j < n && j + 1 < s.len() implies !(s[j] == ':' && #[trigger] s[j + 1]
        == ':') by {
        assert(s[j] == a[j]);
        if j + 1 < n {
            assert(s[j + 1] == a[j + 1]);
        } else {
            assert(s[j] == a.last());
        }
    }
    lemma_double_colon_absent(s, n);
    let r = s.skip(n);
    assert(r[0] == ':' && r[1] == ':');
    assert(double_colon(s) == n);
    assert(s.take(n) =~= a);
    assert(s.skip(n + 2) =~= b);
    lemma_group_list(head, false);
    lemma_group_list(tail, true);
    assert(head + Seq::new((8 - head.len() - tail.len()) as nat, |i: int| 0u16) + tail =~= g);
    assert forall|i: int| 0 <= i < s.len() implies ascii_alphanumeric(#[trigger] s[i]) || s[i]
        == ':' || s[i] == '.' by {
        if i < n {
            assert(s[i] == a[i]);
        } else if i > n + 1 {
            assert(s[i] == b[i - n - 2]);
        }
    }
}

proof fn lemma_ffff()
    ensures
        group_text(seq!['f', 'f', 'f', 'f']),
        digits_value(seq!['f', 'f', 'f', 'f'], 16) == 65535,
{
    let four = seq!['f', 'f', 'f', 'f'];
    reveal_with_fuel(digits_value, 5);
    assert(four.drop_last() =~= seq!['f', 'f', 'f']);
    assert(four.drop_last().drop_last() =~= seq!['f', 'f']);
    assert(four.drop_last().drop_last().drop_last() =~= seq!['f']);
    assert(four.drop_last().drop_last().drop_last().drop_last() =~= Seq::<char>::empty());
}

#[verifier::rlimit(30)]
proof fn lemma_mapped(g: Seq<u16>)
    requires
        g.len() == 8,
        ipv4_mapped(g),
    ensures
        ({
            let o = seq![
                (g[6] / 256) as u8,
                (g[6] % 256) as u8,
                (g[7] / 256) as u8,
                (g[7] % 256) as u8,
            ];
            let s = "::ffff:"@ + ipv4_text(o);
            &&& ipv6_groups(s) == Some(g)
            &&& group_chars(s)
            &&& s.contains(':')
            &&& 0 < s.len() <= 42
        }),
{
    let o = seq![(g[6] / 256) as u8, (g[6] % 256) as u8, (g[7] / 256) as u8, (g[7] % 256) as u8];
    let v4 = ipv4_text(o);
    lemma_ipv4_text(o);
    reveal_strlit("::ffff:");
    let s = "::ffff:"@ + v4;
    let four = seq!['f', 'f', 'f', 'f'];
    assert(s[0] == ':' && s[1] == ':');
    assert(double_colon(s) == 0);
    assert(s.take(0) =~= Seq::<char>::empty());
    assert(s.skip(2) =~= four + seq![':'] + v4);
    assert(!four.contains(':'));
    assert forall|i: int| 0 <= i < v4.len() implies v4[i] != ':' by {
        assert(ascii_alphanumeric(v4[i]) || v4[i] == '.');
    }
    lemma_pieces_cons(four, v4, ':');
    lemma_pieces_single(v4, ':');
    let p = pieces(s.skip(2), ':');
    assert(p =~= seq![four, v4]);
    assert(p.drop_last() =~= seq![four]);
    lemma_ffff();
    let k = choose|k: int| 0 <= k < v4.len() && v4[k] == '.';
    assert(digit_value(v4[k]) == 255);
    assert(!group_text(p.last()));
    let tail = seq![four].map_values(|t: Seq<char>| group_value(t)) + paired_octets(o);
    assert(group_list(s.skip(2), true) == Some(tail));
    assert(tail.len() == 3);
    assert(group_list(s.take(0), false) == Some(Seq::<u16>::empty()));
    let zeros = Seq::new(5, |i: int| 0u16);
    assert(Seq::<u16>::empty() + zeros + tail =~= g);
    assert(ipv6_groups(s) == Some(g));
    assert forall|i: int| 0 <= i < s.len() implies ascii_alphanumeric(#[trigger] s[i]) || s[i]
        == ':' || s[i] == '.' by {
        if i >= 7 {
            assert(s[i] == v4[i - 7]);
        }
    }
}

/// The text of an IPv6 address reads back.
proof fn lemma_ipv6_text(g: Seq<u16>)
    requires
        g.len() == 8,
    ensures
        ipv6_groups(ipv6_text(g)) == Some(g),
        group_chars(ipv6_text(g)),
        ipv6_text(g).contains(':'),
        0 < ipv6_text(g).len() <= 42,
{
    if ipv4_mapped(g) {
        lemma_mapped(g);
    } else if zero_run(g, longest_zero_run(g, 8)) > 1 {
        lemma_compressed(g);
    } else {
        let s = joined_groups(g);
        lemma_joined(g);
        lemma_double_colon_absent(s, s.len() as int);
        assert(s.skip(s.len() as int).len() == 0);
        assert(double_colon(s) == s.len());
        lemma_group_list(g, true);
    }
}

/// Whether a model is that of an address.
pub open spec fn address_shape(a: IpModel) -> bool {
    match a {
        IpModel::V4(octets) => octets.len() == 4,
        IpModel::V6(groups) => groups.len() == 8,
    }
}

/// An address that is written and read is the same address.
pub proof fn law_ip_addresses_read_back(a: IpModel)
    requires
        address_shape(a),
    ensures
        ip_address(ip_text(a)) == Some(a),
{
    match a {
        IpModel::V4(octets) => {
            lemma_ipv4_text(octets);
        },
        IpModel::V6(groups) => {
            let s = ipv6_text(groups);
            lemma_ipv6_text(groups);
            if ipv4_octets(s) is Some {
                lemma_ipv4_chars(s);
                let i = choose|i: int| 0 <= i < s.len() && s[i] == ':';
                assert(ascii_alphanumeric(s[i]) || s[i] == '.');
            }
        },
    }
}

/// Whether a model is that of a socket address.
pub open spec fn socket_shape(a: SocketModel) -> bool {
    match a {
        SocketModel::V4 { octets, port } => octets.len() == 4 && port <= 65535,
        SocketModel::V6 { groups, scope, port } => groups.len() == 8 && scope <= 0xffff_ffff && port
            <= 65535,
    }
}

/// The characters of a written socket address.
pub open spec fn socket_char(c: char) -> bool {
    ascii_alphanumeric(c) || c == ':' || c == '.' || c == '[' || c == ']' || c == '%'
}

proof fn lemma_port(port: nat)
    requires
        port <= 65535,
    ensures
        digits_within(decimal(port), 65535),
        digits_value(decimal(port), 10) == port,
        0 < decimal(port).len() <= 5,
        forall|i: int| 0 <= i < decimal(port).len() ==> ascii_alphanumeric(#[trigger] decimal(port)[i]),
{
    lemma_short_numeral(port, 10);
    lemma_powers();
    lemma_numeral_len(port, 10, 5);
    lemma_digits_are_alphanumeric(decimal(port), 10);
}

proof fn lemma_socket_v4(octets: Seq<u8>, port: nat)
    requires
        octets.len() == 4,
        port <= 65535,
    ensures
        ({
            let a = SocketModel::V4 { octets, port };
            let s = socket_text(a);
            &&& socket_address(s) == Some(a)
            &&& 0 < s.len() <= 100
            &&& forall|i: int| 0 <= i < s.len() ==> socket_char(#[trigger] s[i])
            &&& ascii_alphanumeric(s.last())
        }),
{
    let x = ipv4_text(octets);
    let d = decimal(port);
    let s = x + seq![':'] + d;
    lemma_ipv4_text(octets);
    lemma_port(port);
    let c = x.len() as int;
    assert(s[c] == ':');
    assert forall|j: int| c < j < s.len() implies s[j] != ':' by {
        assert(s[j] == d[j - c - 1]);
    }
    lemma_last_index_unique(s, ':', c);
    assert(s.take(c) =~= x);
    assert(s.skip(c + 1) =~= d);
    assert(s.last() == d.last());
    assert forall|i: int| 0 <= i < s.len() implies socket_char(#[trigger] s[i]) by {
        if i < c {
            assert(s[i] == x[i]);
        } else if i > c {
            assert(s[i] == d[i - c - 1]);
        }
    }
}

/// A text in brackets, followed by a port.
spec fn bracketed(inner: Seq<char>, port: Seq<char>) -> Seq<char> {
    seq!['['] + inner + seq![']', ':'] + port
}

proof fn lemma_bracketed(inner: Seq<char>, d: Seq<char>)
    requires
        d.len() > 0,
        forall|i: int| 0 <= i < d.len() ==> ascii_alphanumeric(#[trigger] d[i]),
    ensures
        ({
            let s = bracketed(inner, d);
            let c = 1 + inner.len() as int;
            &&& s.len() == inner.len() + d.len() + 3
            &&& s[0] == '['
            &&& s[c + 1] == ':'
            &&& last_index(s, ']') == c
            &&& s.skip(c + 2) == d
            &&& s.subrange(1, c) == inner
            &&& s.last() == d.last()
        }),
{
    let s = bracketed(inner, d);
    let c = 1 + inner.len() as int;
    assert(s[c] == ']');
    assert forall|j: int| c < j < s.len() implies s[j] != ']' by {
        if j > c + 1 {
            assert(s[j] == d[j - c - 2]);
        }
    }
    lemma_last_index_unique(s, ']', c);
    assert(s.skip(c + 2) =~= d);
    assert(s.subrange(1, c) =~= inner);
}

proof fn lemma_bracketed_is_not_ipv4(inner: Seq<char>, d: Seq<char>)
    ensures
        socket_v4(bracketed(inner, d)) is None,
{
    let s = bracketed(inner, d);
    let k = last_index(s, ':');
    lemma_last_index(s, ':');
    let c = 1 + inner.len() as int;
    assert(s[c + 1] == ':');
    assert(s[0] == '[');
    if ipv4_octets(s.take(k)) is Some {
        lemma_ipv4_chars(s.take(k));
        assert(s.take(k)[0] == '[');
    }
}

/// The groups of an IPv6 address and its scope, where it has one.
spec fn scoped(groups: Seq<u16>, scope: nat) -> Seq<char> {
    if scope == 0 {
        ipv6_text(groups)
    } else {
        ipv6_text(groups) + seq!['%'] + decimal(scope)
    }
}

proof fn lemma_scoped(groups: Seq<u16>, scope: nat)
    requires
        groups.len() == 8,
        scope <= 0xffff_ffff,
    ensures
        ({
            let inner = scoped(groups, scope);
            let x = ipv6_text(groups);
            let p = first_index(inner, '%');
            &&& scope == 0 ==> p == inner.len()
            &&& scope != 0 ==> p < inner.len() && inner.take(p) == x && inner.skip(p + 1)
                == decimal(scope) && digits_within(decimal(scope), 0xffff_ffff) && digits_value(
                decimal(scope),
                10,
            ) == scope
            &&& inner.len() <= 60
            &&& forall|i: int| 0 <= i < inner.len() ==> socket_char(#[trigger] inner[i])
        }),
{
    let x = ipv6_text(groups);
    let e = decimal(scope);
    let inner = scoped(groups, scope);
    lemma_ipv6_text(groups);
    lemma_short_numeral(scope, 10);
    lemma_powers();
    lemma_numeral_len(scope, 10, 10);
    lemma_digits_are_alphanumeric(e, 10);
    assert forall|i: int| 0 <= i < x.len() implies x[i] != '%' by {
        assert(ascii_alphanumeric(x[i]) || x[i] == ':' || x[i] == '.');
    }
    if scope == 0 {
        lemma_first_index_unique(inner, '%', inner.len() as int);
    } else {
        assert(inner[x.len() as int] == '%');
        assert forall|j: int| 0 <= j < x.len() implies inner[j] != '%' by {
            assert(inner[j] == x[j]);
        }
        lemma_first_index_unique(inner, '%', x.len() as int);
        assert(inner.take(x.len() as int) =~= x);
        assert(inner.skip(x.len() as int + 1) =~= e);
    }
    assert forall|i: int| 0 <= i < inner.len() implies socket_char(#[trigger] inner[i]) by {
        if i < x.len() {
            assert(inner[i] == x[i]);
        } else if i > x.len() {
            assert(inner[i] == e[i - x.len() - 1]);
        }
    }
}

proof fn lemma_socket_v6(groups: Seq<u16>, scope: nat, port: nat)
    requires
        groups.len() == 8,
        scope <= 0xffff_ffff,
        port <= 65535,
    ensures
        ({
            let a = SocketModel::V6 { groups, scope, port };
            let s = socket_text(a);
            &&& socket_address(s) == Some(a)
            &&& 0 < s.len() <= 100
            &&& forall|i: int| 0 <= i < s.len() ==> socket_char(#[trigger] s[i])
            &&& ascii_alphanumeric(s.last())
        }),
{
    let a = SocketModel::V6 { groups, scope, port };
    let d = decimal(port);
    let inner = scoped(groups, scope);
    let s = bracketed(inner, d);
    lemma_port(port);
    lemma_scoped(groups, scope);
    lemma_bracketed(inner, d);
    lemma_bracketed_is_not_ipv4(inner, d);
    lemma_ipv6_text(groups);
    assert(socket_text(a) == s) by {
        reveal_strlit("]:");
        assert("]:"@ =~= seq![']', ':']);
        if scope != 0 {
            assert(socket_text(a) =~= s);
        }
    }
    assert(socket_v6(s) == Some(a));
    let c = 1 + inner.len() as int;
    assert forall|i: int| 0 <= i < s.len() implies socket_char(#[trigger] s[i]) by {
        if 1 <= i < c {
            assert(s[i] == inner[i - 1]);
        } else if i > c + 1 {
            assert(s[i] == d[i - c - 2]);
        }
    }
}

/// A socket address that is written and read is the same address.
pub proof fn law_socket_addresses_read_back(a: SocketModel)
    requires
        socket_shape(a),
    ensures
        socket_address(socket_text(a)) == Some(a),
{
    match a {
        SocketModel::V4 { octets, port } => {
            lemma_socket_v4(octets, port);
        },
        SocketModel::V6 { groups, scope, port } => {
            lemma_socket_v6(groups, scope, port);
        },
    }
}

// ---------------------------------------------------------------------------
// Authorities
// ---------------------------------------------------------------------------

proof fn lemma_groups_len(s: Seq<char>)
    requires
        ipv6_groups(s) is Some,
    ensures
        ipv6_groups(s)->0.len() == 8,
{
}

proof fn lemma_socket_shape(s: Seq<char>)
    requires
        socket_address(s) is Some,
    ensures
        socket_shape(socket_address(s)->0),
{
    if socket_v4(s) is None {
        let c = last_index(s, ']');
        let inner = s.subrange(1, c);
        let p = first_index(inner, '%');
        lemma_first_index(inner, '%');
        if p < inner.len() {
            lemma_groups_len(inner.take(p));
        } else {
            lemma_groups_len(inner);
        }
    }
}

proof fn lemma_digits_bound(s: Seq<char>)
    requires
        all_digits(s, 10),
    ensures
        digits_value(s, 10) < pow(10, s.len()),
    decreases s.len(),
{
    reveal(pow);
    if s.len() > 0 {
        let t = s.drop_last();
        assert forall|i: int| 0 <= i < t.len() implies digit_value(#[trigger] t[i]) < 10 by {
            assert(t[i] == s[i]);
        }
        lemma_digits_bound(t);
        assert(digit_value(s.last()) < 10) by {
            assert(s.last() == s[s.len() - 1]);
        }
        assert(pow(10, s.len()) == 10 * pow(10, t.len()));
    }
}

/// Digits without leading zeros are the numeral of their value.
proof fn lemma_canonical_digits(s: Seq<char>)
    requires
        s.len() > 0,
        all_digits(s, 10),
        s.len() > 1 ==> s[0] != '0',
    ensures
        decimal(digits_value(s, 10)) == s,
        s[0] != '0' ==> digits_value(s, 10) > 0,
    decreases s.len(),
{
    let t = s.drop_last();
    let x = digit_value(s.last());
    assert(s.last() == s[s.len() - 1]);
    assert(x < 10);
    assert('0' <= s.last() <= '9');
    assert(crate::number::digit_char(x) == s.last());
    assert forall|i: int| 0 <= i < t.len() implies digit_value(#[trigger] t[i]) < 10 by {
        assert(t[i] == s[i]);
    }
    if s.len() == 1 {
        assert(t =~= Seq::<char>::empty());
        assert(digits_value(t, 10) == 0);
        assert(digits_value(s, 10) == x);
        assert(numeral(x, 10) =~= s);
        assert(digit_value(s[0]) < 10);
    } else {
        assert(t[0] == s[0]);
        lemma_canonical_digits(t);
        let q = digits_value(t, 10);
        let v = digits_value(s, 10);
        assert(v == q * 10 + x);
        assert(v >= 10);
        assert(v / 10 == q && v % 10 == x);
        assert(numeral(v, 10) =~= numeral(q, 10).push(s.last()));
        assert(t.push(s.last()) =~= s);
    }
}

/// A text with four pieces is made of them.
proof fn lemma_four_pieces(s: Seq<char>, sep: char)
    requires
        pieces(s, sep).len() == 4,
    ensures
        ({
            let p = pieces(s, sep);
            s == p[0] + seq![sep] + p[1] + seq![sep] + p[2] + seq![sep] + p[3]
        }),
{
    lemma_joined_pieces(s, sep);
    let p = pieces(s, sep);
    reveal_with_fuel(joined, 5);
    let q1 = p.drop_first();
    let q2 = q1.drop_first();
    let q3 = q2.drop_first();
    assert(q1[0] == p[1] && q2[0] == p[2] && q3[0] == p[3]);
    assert(joined(p, sep) =~= p[0] + seq![sep] + p[1] + seq![sep] + p[2] + seq![sep] + p[3]);
}

/// Pieces put together again.
spec fn joined(p: Seq<Seq<char>>, sep: char) -> Seq<char>
    decreases p.len(),
{
    if p.len() == 0 {
        Seq::empty()
    } else if p.len() == 1 {
        p[0]
    } else {
        p[0] + seq![sep] + joined(p.drop_first(), sep)
    }
}

proof fn lemma_joined_pieces(s: Seq<char>, sep: char)
    ensures
        pieces(s, sep).len() > 0,
        joined(pieces(s, sep), sep) == s,
    decreases s.len(),
{
    let k = first_index(s, sep);
    lemma_first_index(s, sep);
    let p = pieces(s, sep);
    if k < s.len() {
        let rest = s.skip(k + 1);
        lemma_joined_pieces(rest, sep);
        assert(p.drop_first() =~= pieces(rest, sep));
        assert(p[0] == s.take(k));
        assert(joined(p, sep) =~= s);
    } else {
        assert(p =~= seq![s]);
    }
}

/// The text of an IPv4 address is the one it is written as.
proof fn lemma_ipv4_is_canonical(s: Seq<char>)
    requires
        ipv4_octets(s) is Some,
    ensures
        ipv4_text(ipv4_octets(s)->0) == s,
{
    let p = pieces(s, '.');
    lemma_canonical_digits(p[0]);
    lemma_canonical_digits(p[1]);
    lemma_canonical_digits(p[2]);
    lemma_canonical_digits(p[3]);
    lemma_four_pieces(s, '.');
}

/// What is known of a DNS name.
proof fn lemma_dns_name(s: Seq<char>)
    requires
        dns_name(s) is Some,
    ensures
        ({
            let h = dns_name(s)->0;
            &&& 0 < h.len() <= s.len()
            &&& dns_name(h) == Some(h)
            &&& ascii_alphanumeric(h[0])
            &&& forall|i: int|
                0 <= i < h.len() ==> ascii_alphanumeric(#[trigger] h[i]) || h[i] == '-' || h[i]
                    == '.'
        }),
{
    let h = dns_name(s)->0;
    lemma_trim_end_char(s, '.');
    lemma_label_chars(h);
    lemma_lower_idempotent(trim_end_char(s, '.'));
    assert(trim_end_char(h, '.') == h);
    let p = pieces(h, '.');
    let k = first_index(h, '.');
    lemma_first_index(h, '.');
    assert(valid_label(p[0]));
    assert(p[0][0] == h[0]);
}

proof fn lemma_plain_text(t: Seq<char>)
    requires
        t.len() > 0,
        t.len() <= 255,
        forall|i: int| 0 <= i < t.len() ==> socket_char(#[trigger] t[i]) || t[i] == '-',
    ensures
        trim(t) == t,
        utf8_len(t) <= 255,
        !(exists|i: int| 0 <= i < t.len() && authority_breaker(#[trigger] t[i])),
{
    assert(socket_char(t[0]) || t[0] == '-');
    assert(socket_char(t[t.len() - 1]) || t[t.len() - 1] == '-');
    lemma_trim_fixed(t);
    assert(all_ascii(t)) by {
        assert forall|i: int| 0 <= i < t.len() implies #[trigger] t[i] <= '\u{7f}' by {
            assert(socket_char(t[i]) || t[i] == '-');
        }
    }
    lemma_utf8_len_ascii(t);
    assert forall|i: int| 0 <= i < t.len() implies !authority_breaker(#[trigger] t[i]) by {
        assert(socket_char(t[i]) || t[i] == '-');
    }
}

/// A canonical authority is its own canonical form, so equal authorities have
/// equal origins however they were written.
pub proof fn law_canonical_authorities_are_fixed(value: Seq<char>)
    requires
        canonical_authority(value) is Some,
    ensures
        canonical_authority(canonical_authority(value)->0) == canonical_authority(value),
{
    let s = trim(value);
    let t = canonical_authority(value)->0;
    if socket_address(s) is Some {
        let a = socket_address(s)->0;
        lemma_socket_shape(s);
        match a {
            SocketModel::V4 { octets, port } => {
                lemma_socket_v4(octets, port);
            },
            SocketModel::V6 { groups, scope, port } => {
                lemma_socket_v6(groups, scope, port);
            },
        }
        lemma_plain_text(t);
    } else {
        lemma_named_authority(s);
    }
}

/// The canonical form of a DNS name and a port.
proof fn lemma_named_authority(s: Seq<char>)
    requires
        trim(s) == s,
        socket_address(s) is None,
        canonical_authority(s) is Some,
    ensures
        canonical_authority(canonical_authority(s)->0) == canonical_authority(s),
{
    let t = canonical_authority(s)->0;
    let colon = last_index(s, ':');
    lemma_last_index(s, ':');
    let text = s.skip(colon + 1);
    let port = parsed_number(text, 10, 65535)->0;
    let h = dns_name(s.take(colon))->0;
    let d = decimal(port);
    lemma_dns_name(s.take(colon));
    lemma_port(port);
    assert(t == h + seq![':'] + d);
    assert(t.len() <= 255) by {
        let digits = if text.len() > 0 && text[0] == '+' {
            text.skip(1)
        } else {
            text
        };
        lemma_digits_bound(digits);
        lemma_numeral_len(port, 10, digits.len());
        lemma_utf8_len_bounds(s);
    }
    let c = h.len() as int;
    assert(t[c] == ':');
    assert forall|i: int| 0 <= i < t.len() implies socket_char(#[trigger] t[i]) || t[i]
        == '-' by {
        if i < c {
            assert(t[i] == h[i]);
        } else if i > c {
            assert(t[i] == d[i - c - 1]);
        }
    }
    lemma_plain_text(t);
    assert forall|j: int| c < j < t.len() implies t[j] != ':' by {
        assert(t[j] == d[j - c - 1]);
    }
    lemma_last_index_unique(t, ':', c);
    assert(t.take(c) =~= h);
    assert(t.skip(c + 1) =~= d);
    assert(t[0] == h[0]);
    assert(socket_v6(t) is None);
    if ipv4_octets(h) is Some {
        lemma_ipv4_is_canonical(h);
        assert(socket_address(t) == Some(SocketModel::V4 { octets: ipv4_octets(h)->0, port }));
    } else {
        assert(socket_address(t) is None);
        assert(!h.contains(':')) by {
            assert forall|i: int| 0 <= i < h.len() implies h[i] != ':' by {
                assert(ascii_alphanumeric(h[i]) || h[i] == '-' || h[i] == '.');
            }
        }
        law_decimal_reads_back(port, 65535);
    }
}

} // verus!
