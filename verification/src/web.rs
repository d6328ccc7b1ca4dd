//! Reading the requests of the tower's web interface: which action a method
//! and a URL ask for, and the parameters of its query string.

use vstd::prelude::*;
use crate::floor_type::FloorType;
use crate::text::{
    chars_of, find_char, i32_of, index_of_char, lemma_index_of_char, lemma_split_first,
    lemma_split_last, lemma_split_step, lemma_replace_absent, lemma_replace_frees, lemma_replace_keeps_count, lemma_replace_len, count_from, is_escape, parse_i32, parse_u32, replace_all, replace_code,
    same_chars, split_char, starts_with_chars, string_of, sub_chars, u32_of,
};

verus! {

/// `s` with the escapes `%20`, `%2F`, `%3A`, `%3F`, `%26` and `%3D` turned
/// into the characters they stand for, one escape after the other.
pub open spec fn decode_spec(s: Seq<char>) -> Seq<char> {
    let s1 = replace_all(s, seq!['%', '2', '0'], seq![' ']);
    let s2 = replace_all(s1, seq!['%', '2', 'F'], seq!['/']);
    let s3 = replace_all(s2, seq!['%', '3', 'A'], seq![':']);
    let s4 = replace_all(s3, seq!['%', '3', 'F'], seq!['?']);
    let s5 = replace_all(s4, seq!['%', '2', '6'], seq!['&']);
    replace_all(s5, seq!['%', '3', 'D'], seq!['='])
}

/// The query string of `url`: what follows its first `?`, up to the next
/// `?` if there is one.
pub open spec fn query_of(url: Seq<char>) -> Option<Seq<char>> {
    let parts = split_char(url, '?');
    if parts.len() >= 2 {
        Some(parts[1])
    } else {
        None
    }
}

/// The parameter that one `key=value` piece of a query string sets: none
/// where the piece holds no `=`.
pub open spec fn param_of_piece(piece: Seq<char>) -> Seq<(Seq<char>, Seq<char>)> {
    let j = index_of_char(piece, '=');
    if j < piece.len() {
        seq![(decode_spec(piece.take(j)), decode_spec(piece.skip(j + 1)))]
    } else {
        Seq::empty()
    }
}

/// The parameters that these pieces set, in order.
pub open spec fn params_of_pieces(pieces: Seq<Seq<char>>) -> Seq<(Seq<char>, Seq<char>)>
    decreases pieces.len(),
{
    if pieces.len() == 0 {
        Seq::empty()
    } else {
        param_of_piece(pieces[0]) + params_of_pieces(pieces.drop_first())
    }
}

/// The parameters of the query string of `url`, decoded, in order.
pub open spec fn params_spec(url: Seq<char>) -> Seq<(Seq<char>, Seq<char>)> {
    match query_of(url) {
        Some(q) => params_of_pieces(split_char(q, '&')),
        None => Seq::empty(),
    }
}

/// The value that the last parameter named `key` sets.
pub open spec fn lookup(ps: Seq<(Seq<char>, Seq<char>)>, key: Seq<char>) -> Option<Seq<char>>
    decreases ps.len(),
{
    if ps.len() == 0 {
        None
    } else if ps.last().0 == key {
        Some(ps.last().1)
    } else {
        lookup(ps.drop_last(), key)
    }
}

/// The pairs of strings as pairs of character sequences.
pub open spec fn pairs_view(v: Seq<(String, String)>) -> Seq<(Seq<char>, Seq<char>)> {
    v.map_values(|p: (String, String)| (p.0@, p.1@))
}

/// Parameter `key` read as an `i32`; `default` where it is missing or no
/// such number.
pub open spec fn i32_param(ps: Seq<(Seq<char>, Seq<char>)>, key: Seq<char>, default: i32) -> i32 {
    match lookup(ps, key) {
        Some(v) => match i32_of(v) {
            Some(x) => x,
            None => default,
        },
        None => default,
    }
}

/// Parameter `key` read as a `u32`; `default` where it is missing or no
/// such number.
pub open spec fn u32_param(ps: Seq<(Seq<char>, Seq<char>)>, key: Seq<char>, default: u32) -> u32 {
    match lookup(ps, key) {
        Some(v) => match u32_of(v) {
            Some(x) => x,
            None => default,
        },
        None => default,
    }
}

/// The floor type that a name stands for; an office where the name is
/// missing or unknown.
pub open spec fn floor_type_named(name: Option<Seq<char>>) -> FloorType {
    match name {
        Some(n) => if n == seq!['H', 'o', 't', 'e', 'l'] {
            FloorType::Hotel
        } else if n == seq!['R', 'e', 's', 't', 'a', 'u', 'r', 'a', 'n', 't'] {
            FloorType::Restaurant
        } else if n == seq!['R', 'e', 't', 'a', 'i', 'l'] {
            FloorType::Retail
        } else if n == seq!['R', 'e', 's', 'i', 'd', 'e', 'n', 't', 'i', 'a', 'l'] {
            FloorType::Residential
        } else if n == seq!['L', 'o', 'b', 'b', 'y'] {
            FloorType::Lobby
        } else if n == seq!['O', 'b', 's', 'e', 'r', 'v', 'a', 't', 'o', 'r', 'y'] {
            FloorType::Observatory
        } else {
            FloorType::Office
        },
        None => FloorType::Office,
    }
}

/// What a request to the web interface asks for.
#[derive(Debug, Clone, Copy, PartialEq, Eq, Structural)]
pub enum Request {
    /// The page of the interface.
    Page,
    /// The state of the tower.
    State,
    /// The key figures of the tower.
    Metrics,
    /// A new tower in place of the old one.
    Reset,
    /// A floor of this type at this level.
    Build { floor_type: FloorType, level: i32 },
    /// An elevator in this shaft.
    Elevator { shaft: u32 },
    /// `count` people at level `from`, heading for level `to`.
    Spawn { from: i32, to: i32, count: u32 },
    /// A run of the simulation over this many minutes.
    Advance { minutes: u32 },
    /// Nothing the interface knows.
    NotFound,
}

/// The request that `method` and `url` make: pages and figures are read
/// with `GET` on their exact paths, actions are taken with `POST` on a URL
/// that begins with their path, and missing or unreadable parameters take
/// their defaults.
pub open spec fn route_spec(method: Seq<char>, url: Seq<char>) -> Request {
    let get = method == seq!['G', 'E', 'T'];
    let post = method == seq!['P', 'O', 'S', 'T'];
    let ps = params_spec(url);
    if get && (url == seq!['/'] || url == seq!['/', 'i', 'n', 'd', 'e', 'x', '.', 'h', 't', 'm', 'l']) {
        Request::Page
    } else if get && url == seq!['/', 's', 't', 'a', 't', 'e'] {
        Request::State
    } else if get && url == seq!['/', 'm', 'e', 't', 'r', 'i', 'c', 's'] {
        Request::Metrics
    } else if post && url.take(6) == seq!['/', 'r', 'e', 's', 'e', 't'] && 6 <= url.len() {
        Request::Reset
    } else if post && url.take(6) == seq!['/', 'b', 'u', 'i', 'l', 'd'] && 6 <= url.len() {
        Request::Build {
            floor_type: floor_type_named(lookup(ps, seq!['t', 'y', 'p', 'e'])),
            level: i32_param(ps, seq!['l', 'e', 'v', 'e', 'l'], 0),
        }
    } else if post && url.take(9) == seq!['/', 'e', 'l', 'e', 'v', 'a', 't', 'o', 'r'] && 9 <= url.len() {
        Request::Elevator { shaft: u32_param(ps, seq!['s', 'h', 'a', 'f', 't'], 0) }
    } else if post && url.take(6) == seq!['/', 's', 'p', 'a', 'w', 'n'] && 6 <= url.len() {
        Request::Spawn {
            from: i32_param(ps, seq!['f', 'r', 'o', 'm'], 0),
            to: i32_param(ps, seq!['t', 'o'], 0),
            count: u32_param(ps, seq!['c', 'o', 'u', 'n', 't'], 1),
        }
    } else if post && url.take(8) == seq!['/', 'a', 'd', 'v', 'a', 'n', 'c', 'e'] && 8 <= url.len() {
        Request::Advance { minutes: u32_param(ps, seq!['m', 'i', 'n', 'u', 't', 'e', 's'], 60) }
    } else {
        Request::NotFound
    }
}

/// Turns the escapes `%20`, `%2F`, `%3A`, `%3F`, `%26` and `%3D` into the
/// characters they stand for, one escape after the other.
pub fn decode_chars(s: &Vec<char>) -> (out: Vec<char>)
    ensures
        out@ == decode_spec(s@),
{
    let p1 = ['%', '2', '0'];
    let p2 = ['%', '2', 'F'];
    let p3 = ['%', '3', 'A'];
    let p4 = ['%', '3', 'F'];
    let p5 = ['%', '2', '6'];
    let p6 = ['%', '3', 'D'];
    assert(p1@ =~= seq!['%', '2', '0']);
    assert(p2@ =~= seq!['%', '2', 'F']);
    assert(p3@ =~= seq!['%', '3', 'A']);
    assert(p4@ =~= seq!['%', '3', 'F']);
    assert(p5@ =~= seq!['%', '2', '6']);
    assert(p6@ =~= seq!['%', '3', 'D']);
    let s1 = replace_code(s, p1, ' ');
    let s2 = replace_code(&s1, p2, '/');
    let s3 = replace_code(&s2, p3, ':');
    let s4 = replace_code(&s3, p4, '?');
    let s5 = replace_code(&s4, p5, '&');
    replace_code(&s5, p6, '=')
}

/// Decodes the escapes of a URL component (see `decode_spec`).
pub fn urlencoding(s: &str) -> (out: String)
    ensures
        out@ == decode_spec(s@),
{
    let cs = chars_of(s);
    let d = decode_chars(&cs);
    string_of(&d)
}

/// The parameter that one piece of a query string sets, if any.
fn piece_param(piece: &Vec<char>) -> (r: Option<(String, String)>)
    ensures
        param_of_piece(piece@) == match r {
            Some(p) => seq![(p.0@, p.1@)],
            None => Seq::empty(),
        },
{
    let n = piece.len();
    let j = find_char(piece, '=', 0);
    assert(piece@.skip(0) =~= piece@);
    proof {
        lemma_index_of_char(piece@, '=');
    }
    if j < n {
        let k = sub_chars(piece, 0, j);
        let v = sub_chars(piece, j + 1, n);
        assert(k@ =~= piece@.take(j as int));
        assert(v@ =~= piece@.skip(j + 1));
        let key = string_of(&decode_chars(&k));
        let value = string_of(&decode_chars(&v));
        Some((key, value))
    } else {
        None
    }
}

/// The parameters of the query string of `url`, decoded, in order; a
/// later one with the same name overrides an earlier one (see `param`).
pub fn parse_params(url: &str) -> (r: Vec<(String, String)>)
    ensures
        pairs_view(r@) == params_spec(url@),
{
    let u = chars_of(url);
    let n = u.len();
    let q1 = find_char(&u, '?', 0);
    assert(u@.skip(0) =~= u@);
    proof {
        lemma_index_of_char(u@, '?');
        lemma_split_first(u@, '?');
    }
    let mut out: Vec<(String, String)> = Vec::new();
    if q1 == n {
        proof {
            lemma_split_last(u@, '?');
        }
        assert(pairs_view(out@) =~= Seq::<(Seq<char>, Seq<char>)>::empty());
        return out;
    }
    let q2 = find_char(&u, '?', q1 + 1);
    let q = sub_chars(&u, q1 + 1, q2);
    proof {
        let w = u@.skip(q1 + 1);
        lemma_split_step(u@, '?');
        lemma_split_first(w, '?');
        lemma_index_of_char(w, '?');
        assert(split_char(u@, '?')[1] == split_char(w, '?')[0]);
        assert(q@ =~= w.take(index_of_char(w, '?')));
        assert(query_of(u@) == Some(q@));
    }
    let m = q.len();
    let mut pos: usize = 0;
    let mut done = false;
    assert(q@.skip(0) =~= q@);
    while !done
        invariant
            m == q.len(),
            pos <= m,
            !done ==> pairs_view(out@) + params_of_pieces(split_char(q@.skip(pos as int), '&'))
                == params_of_pieces(split_char(q@, '&')),
            done ==> pairs_view(out@) == params_of_pieces(split_char(q@, '&')),
        decreases m - pos + if done { 0int } else { 1int },
    {
        let k = find_char(&q, '&', pos);
        let piece = sub_chars(&q, pos, k);
        let ghost t = q@.skip(pos as int);
        let ghost before = pairs_view(out@);
        proof {
            lemma_index_of_char(t, '&');
        }
        let p = piece_param(&piece);
        match p {
            Some(kv) => {
                let ghost kv_view = (kv.0@, kv.1@);
                out.push(kv);
                assert(pairs_view(out@) =~= before + seq![kv_view]);
            },
            None => {},
        }
        assert(pairs_view(out@) == before + param_of_piece(piece@));
        if k == m {
            proof {
                lemma_split_last(t, '&');
                assert(piece@ =~= t);
                let one = seq![t];
                assert(one.drop_first() =~= Seq::<Seq<char>>::empty());
                assert(params_of_pieces(one) == param_of_piece(t) + params_of_pieces(one.drop_first()));
                assert(param_of_piece(t) + Seq::<(Seq<char>, Seq<char>)>::empty() =~= param_of_piece(t));
                assert(before + param_of_piece(piece@) == pairs_view(out@));
            }
            done = true;
        } else {
            proof {
                lemma_split_step(t, '&');
                let j = index_of_char(t, '&');
                assert(piece@ =~= t.take(j));
                assert(t.skip(j + 1) =~= q@.skip(k + 1));
                let rest = split_char(t.skip(j + 1), '&');
                let all = seq![t.take(j)] + rest;
                assert(all.drop_first() =~= rest);
                assert(params_of_pieces(all) == param_of_piece(t.take(j)) + params_of_pieces(rest));
                assert(before + (param_of_piece(piece@) + params_of_pieces(rest))
                    =~= (before + param_of_piece(piece@)) + params_of_pieces(rest));
            }
            pos = k + 1;
        }
    }
    out
}

/// Looking a key up in the first `i` parameters gives the same as in all of
/// them, where none after those has that key.
proof fn lemma_lookup_prefix(ps: Seq<(Seq<char>, Seq<char>)>, key: Seq<char>, i: int)
    requires
        0 <= i <= ps.len(),
        forall|k: int| i <= k < ps.len() ==> (#[trigger] ps[k]).0 != key,
    ensures
        lookup(ps, key) == lookup(ps.take(i), key),
    decreases ps.len() - i,
{
    if i == ps.len() {
        assert(ps.take(i) =~= ps);
    } else {
        let d = ps.drop_last();
        assert(ps[ps.len() - 1].0 != key);
        assert forall|k: int| i <= k < d.len() implies (#[trigger] d[k]).0 != key by {
            assert(d[k] == ps[k]);
        }
        lemma_lookup_prefix(d, key, i);
        assert(d.take(i) =~= ps.take(i));
    }
}

/// The value of the last parameter named `key`, as a map that each
/// parameter in turn is written into would hold it.
pub fn param(params: &Vec<(String, String)>, key: &str) -> (r: Option<String>)
    ensures
        match r {
            Some(v) => lookup(pairs_view(params@), key@) == Some(v@),
            None => lookup(pairs_view(params@), key@) is None,
        },
{
    let ghost ps = pairs_view(params@);
    let k = key.to_owned();
    let mut i = params.len();
    while i > 0
        invariant
            i <= params@.len(),
            ps == pairs_view(params@),
            k@ == key@,
            forall|j: int| i <= j < ps.len() ==> (#[trigger] ps[j]).0 != key@,
        decreases i,
    {
        i = i - 1;
        if params[i].0 == k {
            proof {
                lemma_lookup_prefix(ps, key@, i + 1);
                assert(ps.take(i + 1).last() == ps[i as int]);
                assert(ps.take(i + 1).last().0 == key@);
            }
            return Some(params[i].1.clone());
        }
        assert(ps[i as int].0 != key@);
    }
    proof {
        lemma_lookup_prefix(ps, key@, 0);
    }
    None
}

/// Parameter `key` read as an `i32`, or `default`.
pub fn param_i32(params: &Vec<(String, String)>, key: &str, default: i32) -> (r: i32)
    ensures
        r == i32_param(pairs_view(params@), key@, default),
{
    match param(params, key) {
        Some(v) => match parse_i32(&chars_of(v.as_str())) {
            Some(x) => x,
            None => default,
        },
        None => default,
    }
}

/// Parameter `key` read as a `u32`, or `default`.
pub fn param_u32(params: &Vec<(String, String)>, key: &str, default: u32) -> (r: u32)
    ensures
        r == u32_param(pairs_view(params@), key@, default),
{
    match param(params, key) {
        Some(v) => match parse_u32(&chars_of(v.as_str())) {
            Some(x) => x,
            None => default,
        },
        None => default,
    }
}

/// The floor type that a name stands for; an office where the name is
/// missing or unknown.
pub fn floor_type_by_name(name: &Option<String>) -> (t: FloorType)
    ensures
        t == floor_type_named(match name {
            Some(n) => Some(n@),
            None => None,
        }),
{
    match name {
        None => FloorType::Office,
        Some(n) => {
            let c = chars_of(n.as_str());
            let hotel = ['H', 'o', 't', 'e', 'l'];
            let restaurant = ['R', 'e', 's', 't', 'a', 'u', 'r', 'a', 'n', 't'];
            let retail = ['R', 'e', 't', 'a', 'i', 'l'];
            let residential = ['R', 'e', 's', 'i', 'd', 'e', 'n', 't', 'i', 'a', 'l'];
            let lobby = ['L', 'o', 'b', 'b', 'y'];
            let observatory = ['O', 'b', 's', 'e', 'r', 'v', 'a', 't', 'o', 'r', 'y'];
            assert(hotel@ =~= seq!['H', 'o', 't', 'e', 'l']);
            assert(restaurant@ =~= seq!['R', 'e', 's', 't', 'a', 'u', 'r', 'a', 'n', 't']);
            assert(retail@ =~= seq!['R', 'e', 't', 'a', 'i', 'l']);
            assert(residential@ =~= seq!['R', 'e', 's', 'i', 'd', 'e', 'n', 't', 'i', 'a', 'l']);
            assert(lobby@ =~= seq!['L', 'o', 'b', 'b', 'y']);
            assert(observatory@ =~= seq!['O', 'b', 's', 'e', 'r', 'v', 'a', 't', 'o', 'r', 'y']);
            if same_chars(&c, &hotel) {
                FloorType::Hotel
            } else if same_chars(&c, &restaurant) {
                FloorType::Restaurant
            } else if same_chars(&c, &retail) {
                FloorType::Retail
            } else if same_chars(&c, &residential) {
                FloorType::Residential
            } else if same_chars(&c, &lobby) {
                FloorType::Lobby
            } else if same_chars(&c, &observatory) {
                FloorType::Observatory
            } else {
                FloorType::Office
            }
        },
    }
}

/// The request that `method` and `url` make (see `route_spec`).
pub fn route(method: &str, url: &str) -> (r: Request)
    ensures
        r == route_spec(method@, url@),
{
    let m = chars_of(method);
    let u = chars_of(url);
    let get_word = ['G', 'E', 'T'];
    let post_word = ['P', 'O', 'S', 'T'];
    let root = ['/'];
    let index = ['/', 'i', 'n', 'd', 'e', 'x', '.', 'h', 't', 'm', 'l'];
    let state = ['/', 's', 't', 'a', 't', 'e'];
    let metrics = ['/', 'm', 'e', 't', 'r', 'i', 'c', 's'];
    let reset = ['/', 'r', 'e', 's', 'e', 't'];
    let build = ['/', 'b', 'u', 'i', 'l', 'd'];
    let elevator = ['/', 'e', 'l', 'e', 'v', 'a', 't', 'o', 'r'];
    let spawn = ['/', 's', 'p', 'a', 'w', 'n'];
    let advance = ['/', 'a', 'd', 'v', 'a', 'n', 'c', 'e'];
    assert(get_word@ =~= seq!['G', 'E', 'T']);
    assert(post_word@ =~= seq!['P', 'O', 'S', 'T']);
    assert(root@ =~= seq!['/']);
    assert(index@ =~= seq!['/', 'i', 'n', 'd', 'e', 'x', '.', 'h', 't', 'm', 'l']);
    assert(state@ =~= seq!['/', 's', 't', 'a', 't', 'e']);
    assert(metrics@ =~= seq!['/', 'm', 'e', 't', 'r', 'i', 'c', 's']);
    assert(reset@ =~= seq!['/', 'r', 'e', 's', 'e', 't']);
    assert(build@ =~= seq!['/', 'b', 'u', 'i', 'l', 'd']);
    assert(elevator@ =~= seq!['/', 'e', 'l', 'e', 'v', 'a', 't', 'o', 'r']);
    assert(spawn@ =~= seq!['/', 's', 'p', 'a', 'w', 'n']);
    assert(advance@ =~= seq!['/', 'a', 'd', 'v', 'a', 'n', 'c', 'e']);
    let get = same_chars(&m, &get_word);
    let post = same_chars(&m, &post_word);
    if get && (same_chars(&u, &root) || same_chars(&u, &index)) {
        return Request::Page;
    }
    if get && same_chars(&u, &state) {
        return Request::State;
    }
    if get && same_chars(&u, &metrics) {
        return Request::Metrics;
    }
    if !post {
        return Request::NotFound;
    }
    if starts_with_chars(&u, &reset) {
        return Request::Reset;
    }
    if starts_with_chars(&u, &build) {
        let ps = parse_params(url);
        proof {
            reveal_strlit("type");
            reveal_strlit("level");
            assert("type"@ =~= seq!['t', 'y', 'p', 'e']);
            assert("level"@ =~= seq!['l', 'e', 'v', 'e', 'l']);
        }
        let name = param(&ps, "type");
        let floor_type = floor_type_by_name(&name);
        let level = param_i32(&ps, "level", 0);
        return Request::Build { floor_type, level };
    }
    if starts_with_chars(&u, &elevator) {
        let ps = parse_params(url);
        proof {
            reveal_strlit("shaft");
            assert("shaft"@ =~= seq!['s', 'h', 'a', 'f', 't']);
        }
        let shaft = param_u32(&ps, "shaft", 0);
        return Request::Elevator { shaft };
    }
    if starts_with_chars(&u, &spawn) {
        let ps = parse_params(url);
        proof {
            reveal_strlit("from");
            reveal_strlit("to");
            reveal_strlit("count");
            assert("from"@ =~= seq!['f', 'r', 'o', 'm']);
            assert("to"@ =~= seq!['t', 'o']);
            assert("count"@ =~= seq!['c', 'o', 'u', 'n', 't']);
        }
        let from = param_i32(&ps, "from", 0);
        let to = param_i32(&ps, "to", 0);
        let count = param_u32(&ps, "count", 1);
        return Request::Spawn { from, to, count };
    }
    if starts_with_chars(&u, &advance) {
        let ps = parse_params(url);
        proof {
            reveal_strlit("minutes");
            assert("minutes"@ =~= seq!['m', 'i', 'n', 'u', 't', 'e', 's']);
        }
        let minutes = param_u32(&ps, "minutes", 60);
        return Request::Advance { minutes };
    }
    Request::NotFound
}

/// Decoding twice is decoding once: every escape is gone after decoding, and
/// no decoded character can begin or complete an escape.
pub proof fn lemma_decode_idempotent(s: Seq<char>)
    ensures
        decode_spec(decode_spec(s)) == decode_spec(s),
{
    let ps = seq![seq!['%', '2', '0'], seq!['%', '2', 'F'], seq!['%', '3', 'A'], seq!['%', '3', 'F'], seq!['%', '2', '6'], seq!['%', '3', 'D']];
    let cs = seq![' ', '/', ':', '?', '&', '='];
    let s1 = replace_all(s, ps[0], seq![cs[0]]);
    let s2 = replace_all(s1, ps[1], seq![cs[1]]);
    let s3 = replace_all(s2, ps[2], seq![cs[2]]);
    let s4 = replace_all(s3, ps[3], seq![cs[3]]);
    let s5 = replace_all(s4, ps[4], seq![cs[4]]);
    let s6 = replace_all(s5, ps[5], seq![cs[5]]);
    assert(s6 == decode_spec(s));
    lemma_replace_frees(s, ps[0], cs[0], ps[0], 0);
    lemma_replace_frees(s1, ps[1], cs[1], ps[0], 0);
    lemma_replace_frees(s1, ps[1], cs[1], ps[1], 0);
    lemma_replace_frees(s2, ps[2], cs[2], ps[0], 0);
    lemma_replace_frees(s2, ps[2], cs[2], ps[1], 0);
    lemma_replace_frees(s2, ps[2], cs[2], ps[2], 0);
    lemma_replace_frees(s3, ps[3], cs[3], ps[0], 0);
    lemma_replace_frees(s3, ps[3], cs[3], ps[1], 0);
    lemma_replace_frees(s3, ps[3], cs[3], ps[2], 0);
    lemma_replace_frees(s3, ps[3], cs[3], ps[3], 0);
    lemma_replace_frees(s4, ps[4], cs[4], ps[0], 0);
    lemma_replace_frees(s4, ps[4], cs[4], ps[1], 0);
    lemma_replace_frees(s4, ps[4], cs[4], ps[2], 0);
    lemma_replace_frees(s4, ps[4], cs[4], ps[3], 0);
    lemma_replace_frees(s4, ps[4], cs[4], ps[4], 0);
    lemma_replace_frees(s5, ps[5], cs[5], ps[0], 0);
    lemma_replace_frees(s5, ps[5], cs[5], ps[1], 0);
    lemma_replace_frees(s5, ps[5], cs[5], ps[2], 0);
    lemma_replace_frees(s5, ps[5], cs[5], ps[3], 0);
    lemma_replace_frees(s5, ps[5], cs[5], ps[4], 0);
    lemma_replace_frees(s5, ps[5], cs[5], ps[5], 0);
    lemma_replace_absent(s6, ps[0], seq![cs[0]], 0);
    lemma_replace_absent(s6, ps[1], seq![cs[1]], 0);
    lemma_replace_absent(s6, ps[2], seq![cs[2]], 0);
    lemma_replace_absent(s6, ps[3], seq![cs[3]], 0);
    lemma_replace_absent(s6, ps[4], seq![cs[4]], 0);
    lemma_replace_absent(s6, ps[5], seq![cs[5]], 0);
    assert(s6.skip(0) =~= s6);
}

/// How many escapes `%20`, `%2F`, `%3A`, `%3F`, `%26` and `%3D` stand in `s`.
pub open spec fn escape_count(s: Seq<char>) -> nat {
    count_from(s, seq!['%', '2', '0'], 0) + count_from(s, seq!['%', '2', 'F'], 0) + count_from(s, seq!['%', '3', 'A'], 0)
        + count_from(s, seq!['%', '3', 'F'], 0) + count_from(s, seq!['%', '2', '6'], 0) + count_from(s, seq!['%', '3', 'D'], 0)
}

/// Decoding turns each escape that stands in `s` into one character, so it
/// shortens `s` by two characters per escape.
pub proof fn lemma_decode_len(s: Seq<char>)
    ensures
        decode_spec(s).len() == s.len() - 2 * escape_count(s),
{
    let ps = seq![seq!['%', '2', '0'], seq!['%', '2', 'F'], seq!['%', '3', 'A'], seq!['%', '3', 'F'], seq!['%', '2', '6'], seq!['%', '3', 'D']];
    let cs = seq![' ', '/', ':', '?', '&', '='];
    let s1 = replace_all(s, ps[0], seq![cs[0]]);
    let s2 = replace_all(s1, ps[1], seq![cs[1]]);
    let s3 = replace_all(s2, ps[2], seq![cs[2]]);
    let s4 = replace_all(s3, ps[3], seq![cs[3]]);
    let s5 = replace_all(s4, ps[4], seq![cs[4]]);
    let s6 = replace_all(s5, ps[5], seq![cs[5]]);
    assert(s6 == decode_spec(s));
    assert forall|a: int| 0 <= a < 6 implies is_escape(#[trigger] ps[a]) by {}
    assert forall|a: int, b: int| 0 <= a < 6 && 0 <= b < 6 && a != b implies #[trigger] ps[a] != #[trigger] ps[b] by {
        if ps[a][1] == ps[b][1] {
            assert(ps[a][2] != ps[b][2]);
        } else {
            assert(ps[a][1] != ps[b][1]);
        }
    }
    lemma_replace_len(s, ps[0], cs[0], 0);
    lemma_replace_keeps_count(s, ps[0], cs[0], ps[1], 0);
    lemma_replace_keeps_count(s, ps[0], cs[0], ps[2], 0);
    lemma_replace_keeps_count(s, ps[0], cs[0], ps[3], 0);
    lemma_replace_keeps_count(s, ps[0], cs[0], ps[4], 0);
    lemma_replace_keeps_count(s, ps[0], cs[0], ps[5], 0);
    lemma_replace_len(s1, ps[1], cs[1], 0);
    lemma_replace_keeps_count(s1, ps[1], cs[1], ps[2], 0);
    lemma_replace_keeps_count(s1, ps[1], cs[1], ps[3], 0);
    lemma_replace_keeps_count(s1, ps[1], cs[1], ps[4], 0);
    lemma_replace_keeps_count(s1, ps[1], cs[1], ps[5], 0);
    lemma_replace_len(s2, ps[2], cs[2], 0);
    lemma_replace_keeps_count(s2, ps[2], cs[2], ps[3], 0);
    lemma_replace_keeps_count(s2, ps[2], cs[2], ps[4], 0);
    lemma_replace_keeps_count(s2, ps[2], cs[2], ps[5], 0);
    lemma_replace_len(s3, ps[3], cs[3], 0);
    lemma_replace_keeps_count(s3, ps[3], cs[3], ps[4], 0);
    lemma_replace_keeps_count(s3, ps[3], cs[3], ps[5], 0);
    lemma_replace_len(s4, ps[4], cs[4], 0);
    lemma_replace_keeps_count(s4, ps[4], cs[4], ps[5], 0);
    lemma_replace_len(s5, ps[5], cs[5], 0);
}

} // verus!
