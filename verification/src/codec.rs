//! The codec of the control link: a structured request (command name plus
//! optional argument payload) is serialized to one text frame, and a
//! response frame is deserialized into the caller's expected result shape.
//!
//! The wire format is a fixed JSON-style grammar. A request is
//! `{"command":"<name>","args":<args>}` where the argument payload is the
//! explicit absent-value marker `null` or an array of quoted paths. A scan
//! state answer is the externally tagged sum `"Idle"`, `{"Scanning":"<p>"}`,
//! `{"Finished":["<f>",...]}` or `{"FinishedWithError":"<e>"}`; a unit
//! answer is `null`. Inside quoted text the quote and the backslash carry a
//! backslash prefix and every other character stands as itself, so encoding
//! is injective and decoding is its exact inverse; both directions are
//! proved below.

use vstd::prelude::*;
use vstd::string::StrSliceExecFns;
use vstd::string::StringExecFns;

use crate::protocol::ArgsView;
use crate::protocol::CommandArgs;
use crate::protocol::CommandRequest;
use crate::protocol::RequestView;
use crate::protocol::ScanState;
use crate::protocol::StateView;

verus! {

// ----------------------------------------------------------------------------
// Encoding, at the specification level.
// ----------------------------------------------------------------------------

/// One character of quoted text on the wire: the quote and the backslash
/// get a backslash prefix, every other character stands as itself.
pub open spec fn esc_char(c: char) -> Seq<char> {
    if c == '"' || c == '\\' {
        seq!['\\', c]
    } else {
        seq![c]
    }
}

/// Escaped body of a quoted string.
pub open spec fn esc(s: Seq<char>) -> Seq<char>
    decreases s.len(),
{
    if s.len() == 0 {
        Seq::empty()
    } else {
        esc_char(s[0]) + esc(s.skip(1))
    }
}

/// A quoted string on the wire: escaped body between two quotes.
pub open spec fn quote(s: Seq<char>) -> Seq<char> {
    seq!['"'] + esc(s) + seq!['"']
}

/// Second and later items of a non-empty array: each one a comma followed
/// by a quoted string.
pub open spec fn enc_rest(ss: Seq<Seq<char>>) -> Seq<char>
    decreases ss.len(),
{
    if ss.len() == 0 {
        Seq::empty()
    } else {
        seq![','] + quote(ss[0]) + enc_rest(ss.skip(1))
    }
}

/// Comma-separated quoted items of an array.
pub open spec fn enc_items(ss: Seq<Seq<char>>) -> Seq<char> {
    if ss.len() == 0 {
        Seq::empty()
    } else {
        quote(ss[0]) + enc_rest(ss.skip(1))
    }
}

/// An array of quoted strings on the wire.
pub open spec fn enc_arr(ss: Seq<Seq<char>>) -> Seq<char> {
    seq!['['] + enc_items(ss) + seq![']']
}

/// The explicit absent-value marker, also the unit answer frame.
pub open spec fn unit_wire() -> Seq<char> {
    "null"@
}

/// An argument payload on the wire.
pub open spec fn enc_args(a: ArgsView) -> Seq<char> {
    match a {
        ArgsView::Null => unit_wire(),
        ArgsView::Paths(ps) => enc_arr(ps),
    }
}

/// Head of a request frame, up to the opening quote of the command name.
pub open spec fn pre_request() -> Seq<char> {
    "{\"command\":"@
}

/// Separator between the command name and the argument payload.
pub open spec fn mid_request() -> Seq<char> {
    ",\"args\":"@
}

/// A full request frame.
pub open spec fn enc_request(r: RequestView) -> Seq<char> {
    pre_request() + quote(r.command) + mid_request() + enc_args(r.args) + seq!['}']
}

/// The idle answer frame.
pub open spec fn lit_idle() -> Seq<char> {
    "\"Idle\""@
}

/// Head of a scanning answer frame.
pub open spec fn pre_scanning() -> Seq<char> {
    "{\"Scanning\":"@
}

/// Head of a finished answer frame.
pub open spec fn pre_finished() -> Seq<char> {
    "{\"Finished\":"@
}

/// Head of a finished-with-error answer frame.
pub open spec fn pre_finished_with_error() -> Seq<char> {
    "{\"FinishedWithError\":"@
}

/// A full scan state answer frame.
pub open spec fn enc_state(s: StateView) -> Seq<char> {
    match s {
        StateView::Idle => lit_idle(),
        StateView::Scanning(p) => pre_scanning() + quote(p) + seq!['}'],
        StateView::Finished(fs) => pre_finished() + enc_arr(fs) + seq!['}'],
        StateView::FinishedWithError(e) => pre_finished_with_error() + quote(e) + seq!['}'],
    }
}

// ----------------------------------------------------------------------------
// Facts about the encoding.
// ----------------------------------------------------------------------------

/// Escaping distributes over concatenation.
pub proof fn lemma_esc_app(a: Seq<char>, b: Seq<char>)
    ensures
        esc(a + b) == esc(a) + esc(b),
    decreases a.len(),
{
    if a.len() == 0 {
        assert(a + b =~= b);
        assert(esc(a) + esc(b) =~= esc(b));
    } else {
        assert((a + b).skip(1) =~= a.skip(1) + b);
        lemma_esc_app(a.skip(1), b);
        assert(esc(a + b) =~= esc(a) + esc(b));
    }
}

/// Escaping one more character appends its escape.
pub proof fn lemma_esc_push(s: Seq<char>, c: char)
    ensures
        esc(s.push(c)) == esc(s) + esc_char(c),
{
    assert(s.push(c) =~= s + seq![c]);
    lemma_esc_app(s, seq![c]);
    let s1 = seq![c];
    assert(s1.len() == 1 && s1[0] == c);
    assert(s1.skip(1) =~= Seq::<char>::empty());
    assert(esc(s1) == esc_char(c) + esc(s1.skip(1)));
    assert(esc(s1) =~= esc_char(c));
}

/// The tail items of a non-empty array append one by one.
pub proof fn lemma_enc_rest_push(ss: Seq<Seq<char>>, s: Seq<char>)
    ensures
        enc_rest(ss.push(s)) == enc_rest(ss) + seq![','] + quote(s),
    decreases ss.len(),
{
    if ss.len() == 0 {
        let ps = ss.push(s);
        assert(ps.len() == 1 && ps[0] == s);
        assert(ps.skip(1) =~= Seq::<Seq<char>>::empty());
        assert(enc_rest(ps) == seq![','] + quote(s) + enc_rest(ps.skip(1)));
        assert(enc_rest(ps) =~= enc_rest(ss) + seq![','] + quote(s));
    } else {
        assert(ss.push(s).skip(1) =~= ss.skip(1).push(s));
        lemma_enc_rest_push(ss.skip(1), s);
        assert(enc_rest(ss.push(s)) =~= enc_rest(ss) + seq![','] + quote(s));
    }
}

/// A non-singleton array encodes as its first item, a comma, and the rest.
pub proof fn lemma_enc_items_step(ss: Seq<Seq<char>>)
    requires
        ss.len() >= 2,
    ensures
        enc_items(ss) == quote(ss[0]) + seq![','] + enc_items(ss.skip(1)),
{
    assert(ss.skip(1).len() >= 1);
    assert(ss.skip(1).skip(1) =~= ss.skip(2));
    assert(enc_rest(ss.skip(1)) == seq![','] + quote(ss.skip(1)[0]) + enc_rest(ss.skip(1).skip(1)));
    assert(enc_items(ss) =~= quote(ss[0]) + seq![','] + enc_items(ss.skip(1)));
}

// ----------------------------------------------------------------------------
// Decoding, at the specification level: a strict recursive descent over the
// same grammar. Each parser consumes one construct and yields the value and
// the unconsumed rest.
// ----------------------------------------------------------------------------

/// `p` is a prefix of `t`.
pub open spec fn starts_with(t: Seq<char>, p: Seq<char>) -> bool {
    p.len() <= t.len() && t.take(p.len() as int) == p
}

/// A concatenation starts with its first part, and skipping it leaves the
/// second.
pub proof fn lemma_prefix(p: Seq<char>, rest: Seq<char>)
    ensures
        starts_with(p + rest, p),
        (p + rest).skip(p.len() as int) == rest,
{
    assert((p + rest).take(p.len() as int) =~= p);
    assert((p + rest).skip(p.len() as int) =~= rest);
}

/// Skipping a prefix recovers the rest of the frame.
pub proof fn lemma_starts_with_skip(t: Seq<char>, p: Seq<char>)
    requires
        starts_with(t, p),
    ensures
        t == p + t.skip(p.len() as int),
{
    assert(t =~= p + t.skip(p.len() as int));
}

/// Body of a quoted string, after the opening quote: characters up to the
/// first unescaped closing quote, with the two escapes undone.
pub open spec fn dec_str_body(t: Seq<char>) -> Option<(Seq<char>, Seq<char>)>
    decreases t.len(),
{
    if t.len() == 0 {
        None
    } else if t[0] == '"' {
        Some((Seq::empty(), t.skip(1)))
    } else if t[0] == '\\' {
        if t.len() >= 2 && (t[1] == '"' || t[1] == '\\') {
            match dec_str_body(t.skip(2)) {
                Some(sr) => Some((seq![t[1]] + sr.0, sr.1)),
                None => None,
            }
        } else {
            None
        }
    } else {
        match dec_str_body(t.skip(1)) {
            Some(sr) => Some((seq![t[0]] + sr.0, sr.1)),
            None => None,
        }
    }
}

/// A singleton escapes to the escape of its character.
pub proof fn lemma_esc_one(c: char)
    ensures
        esc(seq![c]) == esc_char(c),
{
    let s1 = seq![c];
    assert(s1.len() == 1 && s1[0] == c);
    assert(s1.skip(1) =~= Seq::<char>::empty());
    assert(esc(s1) == esc_char(c) + esc(s1.skip(1)));
    assert(esc(s1) =~= esc_char(c));
}

/// A decoded string body is exactly the escaped image of its value: the
/// input was the value's escaped body, the closing quote, and the rest.
pub proof fn lemma_dec_str_body_sound(t: Seq<char>)
    ensures
        match dec_str_body(t) {
            Some(sr) => t == esc(sr.0) + seq!['"'] + sr.1 && sr.1.len() < t.len(),
            None => true,
        },
    decreases t.len(),
{
    if t.len() == 0 {
    } else if t[0] == '"' {
        assert(esc(Seq::<char>::empty()) =~= Seq::<char>::empty());
        assert(t =~= esc(Seq::<char>::empty()) + seq!['"'] + t.skip(1));
    } else if t[0] == '\\' {
        if t.len() >= 2 && (t[1] == '"' || t[1] == '\\') {
            lemma_dec_str_body_sound(t.skip(2));
            match dec_str_body(t.skip(2)) {
                Some(sr) => {
                    lemma_esc_app(seq![t[1]], sr.0);
                    lemma_esc_one(t[1]);
                    assert(esc_char(t[1]) == seq!['\\', t[1]]);
                    assert(t =~= seq!['\\', t[1]] + t.skip(2));
                    assert(t =~= esc(seq![t[1]] + sr.0) + seq!['"'] + sr.1);
                },
                None => {},
            }
        }
    } else {
        lemma_dec_str_body_sound(t.skip(1));
        match dec_str_body(t.skip(1)) {
            Some(sr) => {
                lemma_esc_app(seq![t[0]], sr.0);
                lemma_esc_one(t[0]);
                assert(esc_char(t[0]) == seq![t[0]]);
                assert(t =~= seq![t[0]] + t.skip(1));
                assert(t =~= esc(seq![t[0]] + sr.0) + seq!['"'] + sr.1);
            },
            None => {},
        }
    }
}

/// Decoding undoes encoding on string bodies, whatever follows the
/// closing quote.
pub proof fn lemma_dec_str_body_rt(s: Seq<char>, r: Seq<char>)
    ensures
        dec_str_body(esc(s) + seq!['"'] + r) == Some((s, r)),
    decreases s.len(),
{
    let t = esc(s) + seq!['"'] + r;
    if s.len() == 0 {
        assert(esc(s) =~= Seq::<char>::empty());
        assert(t[0] == '"');
        assert(t.skip(1) =~= r);
        assert(s =~= Seq::<char>::empty());
    } else {
        assert(esc(s) == esc_char(s[0]) + esc(s.skip(1)));
        lemma_dec_str_body_rt(s.skip(1), r);
        if s[0] == '"' || s[0] == '\\' {
            assert(esc_char(s[0]) == seq!['\\', s[0]]);
            assert(t.len() >= 2 && t[0] == '\\' && t[1] == s[0]);
            assert(t.skip(2) =~= esc(s.skip(1)) + seq!['"'] + r);
            assert(seq![t[1]] + s.skip(1) =~= s);
        } else {
            assert(esc_char(s[0]) == seq![s[0]]);
            assert(t[0] == s[0]);
            assert(t.skip(1) =~= esc(s.skip(1)) + seq!['"'] + r);
            assert(seq![t[0]] + s.skip(1) =~= s);
        }
    }
}

/// One or more comma-separated quoted items, then the closing bracket.
pub open spec fn dec_items(t: Seq<char>) -> Option<(Seq<Seq<char>>, Seq<char>)>
    decreases t.len(),
    via dec_items_dec
{
    if t.len() > 0 && t[0] == '"' {
        match dec_str_body(t.skip(1)) {
            Some(sr) => {
                if sr.1.len() > 0 && sr.1[0] == ']' {
                    Some((seq![sr.0], sr.1.skip(1)))
                } else if sr.1.len() > 0 && sr.1[0] == ',' {
                    match dec_items(sr.1.skip(1)) {
                        Some(ir) => Some((seq![sr.0] + ir.0, ir.1)),
                        None => None,
                    }
                } else {
                    None
                }
            },
            None => None,
        }
    } else {
        None
    }
}

#[via_fn]
proof fn dec_items_dec(t: Seq<char>) {
    if t.len() > 0 && t[0] == '"' {
        lemma_dec_str_body_sound(t.skip(1));
    }
}

/// A whole array, from its opening bracket.
pub open spec fn dec_arr(t: Seq<char>) -> Option<(Seq<Seq<char>>, Seq<char>)> {
    if t.len() >= 2 && t[0] == '[' && t[1] == ']' {
        Some((Seq::empty(), t.skip(2)))
    } else if t.len() > 0 && t[0] == '[' {
        dec_items(t.skip(1))
    } else {
        None
    }
}

/// An argument payload: the absent-value marker or a path array.
pub open spec fn dec_args(t: Seq<char>) -> Option<(ArgsView, Seq<char>)> {
    if starts_with(t, unit_wire()) {
        Some((ArgsView::Null, t.skip(unit_wire().len() as int)))
    } else {
        match dec_arr(t) {
            Some(ar) => Some((ArgsView::Paths(ar.0), ar.1)),
            None => None,
        }
    }
}

/// A whole request frame. A frame whose command name is empty is rejected:
/// the remote contract admits no nameless operation.
pub open spec fn dec_request(t: Seq<char>) -> Option<RequestView> {
    if starts_with(t, pre_request()) {
        let t1 = t.skip(pre_request().len() as int);
        if t1.len() > 0 && t1[0] == '"' {
            match dec_str_body(t1.skip(1)) {
                Some(sr) => {
                    if sr.0.len() > 0 && starts_with(sr.1, mid_request()) {
                        match dec_args(sr.1.skip(mid_request().len() as int)) {
                            Some(ar) => {
                                if ar.1 == seq!['}'] {
                                    Some(RequestView { command: sr.0, args: ar.0 })
                                } else {
                                    None
                                }
                            },
                            None => None,
                        }
                    } else {
                        None
                    }
                },
                None => None,
            }
        } else {
            None
        }
    } else {
        None
    }
}

/// A whole scan state answer frame.
pub open spec fn dec_state(t: Seq<char>) -> Option<StateView> {
    if t == lit_idle() {
        Some(StateView::Idle)
    } else if starts_with(t, pre_scanning()) {
        let t1 = t.skip(pre_scanning().len() as int);
        if t1.len() > 0 && t1[0] == '"' {
            match dec_str_body(t1.skip(1)) {
                Some(sr) => {
                    if sr.1 == seq!['}'] {
                        Some(StateView::Scanning(sr.0))
                    } else {
                        None
                    }
                },
                None => None,
            }
        } else {
            None
        }
    } else if starts_with(t, pre_finished()) {
        match dec_arr(t.skip(pre_finished().len() as int)) {
            Some(ar) => {
                if ar.1 == seq!['}'] {
                    Some(StateView::Finished(ar.0))
                } else {
                    None
                }
            },
            None => None,
        }
    } else if starts_with(t, pre_finished_with_error()) {
        let t1 = t.skip(pre_finished_with_error().len() as int);
        if t1.len() > 0 && t1[0] == '"' {
            match dec_str_body(t1.skip(1)) {
                Some(sr) => {
                    if sr.1 == seq!['}'] {
                        Some(StateView::FinishedWithError(sr.0))
                    } else {
                        None
                    }
                },
                None => None,
            }
        } else {
            None
        }
    } else {
        None
    }
}

// ----------------------------------------------------------------------------
// The two directions of exactness: decoding undoes encoding (so every
// genuine frame is accepted, with its value), and decoding accepts nothing
// but genuine frames (so a frame never decodes to anything other than the
// value it encodes).
// ----------------------------------------------------------------------------

/// Decoding undoes encoding on non-empty item lists.
pub proof fn lemma_dec_items_rt(ss: Seq<Seq<char>>, r: Seq<char>)
    requires
        ss.len() >= 1,
    ensures
        dec_items(enc_items(ss) + seq![']'] + r) == Some((ss, r)),
    decreases ss.len(),
{
    let t = enc_items(ss) + seq![']'] + r;
    if ss.len() == 1 {
        assert(enc_rest(ss.skip(1)) =~= Seq::<char>::empty());
        assert(enc_items(ss) =~= quote(ss[0]));
        assert(t[0] == '"');
        assert(t.skip(1) =~= esc(ss[0]) + seq!['"'] + (seq![']'] + r));
        lemma_dec_str_body_rt(ss[0], seq![']'] + r);
        assert((seq![']'] + r)[0] == ']');
        assert((seq![']'] + r).skip(1) =~= r);
        assert(seq![ss[0]] =~= ss);
    } else {
        lemma_enc_items_step(ss);
        assert(t[0] == '"');
        let tail = seq![','] + enc_items(ss.skip(1)) + seq![']'] + r;
        assert(t.skip(1) =~= esc(ss[0]) + seq!['"'] + tail);
        lemma_dec_str_body_rt(ss[0], tail);
        assert(tail[0] == ',');
        assert(tail.skip(1) =~= enc_items(ss.skip(1)) + seq![']'] + r);
        lemma_dec_items_rt(ss.skip(1), r);
        assert(seq![ss[0]] + ss.skip(1) =~= ss);
    }
}

/// A decoded item list is exactly the encoded image of its value.
pub proof fn lemma_dec_items_sound(t: Seq<char>)
    ensures
        match dec_items(t) {
            Some(ir) => ir.0.len() >= 1 && t == enc_items(ir.0) + seq![']'] + ir.1 && ir.1.len()
                < t.len(),
            None => true,
        },
    decreases t.len(),
{
    if t.len() > 0 && t[0] == '"' {
        lemma_dec_str_body_sound(t.skip(1));
        match dec_str_body(t.skip(1)) {
            Some(sr) => {
                if sr.1.len() > 0 && sr.1[0] == ']' {
                    let ss = seq![sr.0];
                    assert(enc_rest(ss.skip(1)) =~= Seq::<char>::empty());
                    assert(enc_items(ss) =~= quote(sr.0));
                    assert(sr.1 =~= seq![']'] + sr.1.skip(1));
                    assert(t =~= seq!['"'] + t.skip(1));
                    assert(t =~= enc_items(ss) + seq![']'] + sr.1.skip(1));
                } else if sr.1.len() > 0 && sr.1[0] == ',' {
                    lemma_dec_items_sound(sr.1.skip(1));
                    match dec_items(sr.1.skip(1)) {
                        Some(ir) => {
                            let ss = seq![sr.0] + ir.0;
                            assert(ss.len() >= 2);
                            assert(ss.skip(1) =~= ir.0);
                            lemma_enc_items_step(ss);
                            assert(sr.1 =~= seq![','] + sr.1.skip(1));
                            assert(t =~= seq!['"'] + t.skip(1));
                            assert(t =~= enc_items(ss) + seq![']'] + ir.1);
                        },
                        None => {},
                    }
                }
            },
            None => {},
        }
    }
}

/// Decoding undoes encoding on arrays.
pub proof fn lemma_dec_arr_rt(ss: Seq<Seq<char>>, r: Seq<char>)
    ensures
        dec_arr(enc_arr(ss) + r) == Some((ss, r)),
{
    let t = enc_arr(ss) + r;
    if ss.len() == 0 {
        assert(enc_items(ss) =~= Seq::<char>::empty());
        assert(t.len() >= 2 && t[0] == '[' && t[1] == ']');
        assert(t.skip(2) =~= r);
        assert(ss =~= Seq::<Seq<char>>::empty());
    } else {
        assert(t[0] == '[');
        assert(enc_items(ss)[0] == '"');
        assert(t[1] == '"');
        assert(t.skip(1) =~= enc_items(ss) + seq![']'] + r);
        lemma_dec_items_rt(ss, r);
    }
}

/// A decoded array is exactly the encoded image of its value.
pub proof fn lemma_dec_arr_sound(t: Seq<char>)
    ensures
        match dec_arr(t) {
            Some(ar) => t == enc_arr(ar.0) + ar.1 && ar.1.len() < t.len(),
            None => true,
        },
{
    if t.len() >= 2 && t[0] == '[' && t[1] == ']' {
        assert(enc_items(Seq::<Seq<char>>::empty()) =~= Seq::<char>::empty());
        assert(t =~= enc_arr(Seq::<Seq<char>>::empty()) + t.skip(2));
    } else if t.len() > 0 && t[0] == '[' {
        lemma_dec_items_sound(t.skip(1));
        match dec_items(t.skip(1)) {
            Some(ir) => {
                assert(t =~= seq!['['] + t.skip(1));
                assert(t =~= enc_arr(ir.0) + ir.1);
            },
            None => {},
        }
    }
}

/// Decoding undoes encoding on argument payloads.
pub proof fn lemma_dec_args_rt(a: ArgsView, r: Seq<char>)
    ensures
        dec_args(enc_args(a) + r) == Some((a, r)),
{
    reveal_strlit("null");
    let t = enc_args(a) + r;
    match a {
        ArgsView::Null => {
            lemma_prefix(unit_wire(), r);
        },
        ArgsView::Paths(ps) => {
            assert(t[0] == '[');
            assert(!starts_with(t, unit_wire())) by {
                if starts_with(t, unit_wire()) {
                    assert(t.take(unit_wire().len() as int)[0] == t[0]);
                }
            }
            lemma_dec_arr_rt(ps, r);
        },
    }
}

/// A decoded argument payload is exactly the encoded image of its value.
pub proof fn lemma_dec_args_sound(t: Seq<char>)
    ensures
        match dec_args(t) {
            Some(ar) => t == enc_args(ar.0) + ar.1 && ar.1.len() < t.len(),
            None => true,
        },
{
    reveal_strlit("null");
    if starts_with(t, unit_wire()) {
        lemma_starts_with_skip(t, unit_wire());
    } else {
        lemma_dec_arr_sound(t);
    }
}

/// Decoding undoes encoding on request frames: the protocol round-trips
/// for every request the remote contract accepts (a non-empty command name
/// with either argument payload).
pub proof fn lemma_dec_request_rt(rv: RequestView)
    requires
        rv.command.len() > 0,
    ensures
        dec_request(enc_request(rv)) == Some(rv),
{
    let t = enc_request(rv);
    let after = mid_request() + enc_args(rv.args) + seq!['}'];
    assert(t =~= pre_request() + (quote(rv.command) + after));
    lemma_prefix(pre_request(), quote(rv.command) + after);
    let t1 = t.skip(pre_request().len() as int);
    assert(t1[0] == '"');
    assert(t1.skip(1) =~= esc(rv.command) + seq!['"'] + after);
    lemma_dec_str_body_rt(rv.command, after);
    assert(after =~= mid_request() + (enc_args(rv.args) + seq!['}']));
    lemma_prefix(mid_request(), enc_args(rv.args) + seq!['}']);
    assert(after.skip(mid_request().len() as int) == enc_args(rv.args) + seq!['}']);
    lemma_dec_args_rt(rv.args, seq!['}']);
}

/// A decoded request frame is exactly the encoded image of its value, and
/// its command name is non-empty.
pub proof fn lemma_dec_request_sound(t: Seq<char>)
    ensures
        match dec_request(t) {
            Some(rv) => t == enc_request(rv) && rv.command.len() > 0,
            None => true,
        },
{
    if starts_with(t, pre_request()) {
        lemma_starts_with_skip(t, pre_request());
        let t1 = t.skip(pre_request().len() as int);
        if t1.len() > 0 && t1[0] == '"' {
            lemma_dec_str_body_sound(t1.skip(1));
            match dec_str_body(t1.skip(1)) {
                Some(sr) => {
                    if sr.0.len() > 0 && starts_with(sr.1, mid_request()) {
                        lemma_starts_with_skip(sr.1, mid_request());
                        lemma_dec_args_sound(sr.1.skip(mid_request().len() as int));
                        match dec_args(sr.1.skip(mid_request().len() as int)) {
                            Some(ar) => {
                                if ar.1 == seq!['}'] {
                                    let rv = RequestView { command: sr.0, args: ar.0 };
                                    assert(t1 =~= seq!['"'] + t1.skip(1));
                                    assert(t =~= enc_request(rv));
                                }
                            },
                            None => {},
                        }
                    }
                },
                None => {},
            }
        }
    }
}

/// The four answer heads tell each other apart: facts about their first
/// characters used to separate the decoder's branches.
proof fn lemma_state_heads()
    ensures
        lit_idle().len() == 6,
        lit_idle()[0] == '"',
        pre_scanning().len() == 12,
        pre_scanning()[0] == '{',
        pre_scanning()[2] == 'S',
        pre_finished().len() == 12,
        pre_finished()[0] == '{',
        pre_finished()[2] == 'F',
        pre_finished()[10] == '"',
        pre_finished_with_error().len() == 21,
        pre_finished_with_error()[0] == '{',
        pre_finished_with_error()[2] == 'F',
        pre_finished_with_error()[10] == 'W',
{
    reveal_strlit("\"Idle\"");
    reveal_strlit("{\"Scanning\":");
    reveal_strlit("{\"Finished\":");
    reveal_strlit("{\"FinishedWithError\":");
}

/// Decoding undoes encoding on scan state frames: polling and the start
/// call read back exactly the state the engine answered with.
pub proof fn lemma_dec_state_rt(sv: StateView)
    ensures
        dec_state(enc_state(sv)) == Some(sv),
{
    lemma_state_heads();
    let t = enc_state(sv);
    match sv {
        StateView::Idle => {
        },
        StateView::Scanning(p) => {
            assert(t =~= pre_scanning() + (quote(p) + seq!['}']));
            lemma_prefix(pre_scanning(), quote(p) + seq!['}']);
            assert(t != lit_idle()) by {
                assert(t[0] == '{');
            }
            let t1 = t.skip(pre_scanning().len() as int);
            assert(t1[0] == '"');
            assert(t1.skip(1) =~= esc(p) + seq!['"'] + seq!['}']);
            lemma_dec_str_body_rt(p, seq!['}']);
        },
        StateView::Finished(fs) => {
            assert(t =~= pre_finished() + (enc_arr(fs) + seq!['}']));
            lemma_prefix(pre_finished(), enc_arr(fs) + seq!['}']);
            assert(t != lit_idle()) by {
                assert(t[0] == '{');
            }
            assert(!starts_with(t, pre_scanning())) by {
                if starts_with(t, pre_scanning()) {
                    assert(t.take(pre_scanning().len() as int)[2] == t[2]);
                    assert(t[2] == pre_finished()[2]);
                }
            }
            lemma_dec_arr_rt(fs, seq!['}']);
        },
        StateView::FinishedWithError(e) => {
            assert(t =~= pre_finished_with_error() + (quote(e) + seq!['}']));
            lemma_prefix(pre_finished_with_error(), quote(e) + seq!['}']);
            assert(t != lit_idle()) by {
                assert(t[0] == '{');
            }
            assert(!starts_with(t, pre_scanning())) by {
                if starts_with(t, pre_scanning()) {
                    assert(t.take(pre_scanning().len() as int)[2] == t[2]);
                    assert(t[2] == pre_finished_with_error()[2]);
                }
            }
            assert(!starts_with(t, pre_finished())) by {
                if starts_with(t, pre_finished()) {
                    assert(t.take(pre_finished().len() as int)[10] == t[10]);
                    assert(t[10] == pre_finished_with_error()[10]);
                }
            }
            let t1 = t.skip(pre_finished_with_error().len() as int);
            assert(t1[0] == '"');
            assert(t1.skip(1) =~= esc(e) + seq!['"'] + seq!['}']);
            lemma_dec_str_body_rt(e, seq!['}']);
        },
    }
}

/// A decoded scan state frame is exactly the encoded image of its value:
/// nothing but a genuine frame is ever accepted, and never as any value
/// other than the one it encodes.
pub proof fn lemma_dec_state_sound(t: Seq<char>)
    ensures
        match dec_state(t) {
            Some(sv) => t == enc_state(sv),
            None => true,
        },
{
    lemma_state_heads();
    if t == lit_idle() {
    } else if starts_with(t, pre_scanning()) {
        lemma_starts_with_skip(t, pre_scanning());
        let t1 = t.skip(pre_scanning().len() as int);
        if t1.len() > 0 && t1[0] == '"' {
            lemma_dec_str_body_sound(t1.skip(1));
            match dec_str_body(t1.skip(1)) {
                Some(sr) => {
                    if sr.1 == seq!['}'] {
                        assert(t1 =~= seq!['"'] + t1.skip(1));
                        assert(t =~= enc_state(StateView::Scanning(sr.0)));
                    }
                },
                None => {},
            }
        }
    } else if starts_with(t, pre_finished()) {
        lemma_starts_with_skip(t, pre_finished());
        lemma_dec_arr_sound(t.skip(pre_finished().len() as int));
        match dec_arr(t.skip(pre_finished().len() as int)) {
            Some(ar) => {
                if ar.1 == seq!['}'] {
                    assert(t =~= enc_state(StateView::Finished(ar.0)));
                }
            },
            None => {},
        }
    } else if starts_with(t, pre_finished_with_error()) {
        lemma_starts_with_skip(t, pre_finished_with_error());
        let t1 = t.skip(pre_finished_with_error().len() as int);
        if t1.len() > 0 && t1[0] == '"' {
            lemma_dec_str_body_sound(t1.skip(1));
            match dec_str_body(t1.skip(1)) {
                Some(sr) => {
                    if sr.1 == seq!['}'] {
                        assert(t1 =~= seq!['"'] + t1.skip(1));
                        assert(t =~= enc_state(StateView::FinishedWithError(sr.0)));
                    }
                },
                None => {},
            }
        }
    }
}

// ----------------------------------------------------------------------------
// Executable encoding.
// ----------------------------------------------------------------------------

/// Relies on `String::push` of std: appends exactly the one character.
#[verifier::external_body]
fn push_char(out: &mut String, c: char)
    ensures
        final(out)@ == old(out)@.push(c),
{
    out.push(c);
}

/// Appends the quoted form of `s` to `out`.
fn encode_quoted_into(out: &mut String, s: &str)
    ensures
        final(out)@ == old(out)@ + quote(s@),
{
    let ghost base = out@;
    push_char(out, '"');
    let n = s.unicode_len();
    let mut i: usize = 0;
    assert(s@.take(0) =~= Seq::<char>::empty());
    assert(out@ =~= base + seq!['"'] + esc(s@.take(0)));
    while i < n
        invariant
            n == s@.len(),
            i <= n,
            out@ == base + seq!['"'] + esc(s@.take(i as int)),
        decreases n - i,
    {
        let c = s.get_char(i);
        proof {
            lemma_esc_push(s@.take(i as int), c);
            assert(s@.take(i as int).push(c) =~= s@.take(i + 1));
        }
        if c == '"' || c == '\\' {
            push_char(out, '\\');
        }
        push_char(out, c);
        proof {
            assert(out@ =~= base + seq!['"'] + esc(s@.take(i + 1)));
        }
        i = i + 1;
    }
    assert(s@.take(n as int) =~= s@);
    push_char(out, '"');
    assert(out@ =~= base + quote(s@));
}

/// Appends the array form of `paths` to `out`.
fn encode_array_into(out: &mut String, items: &Vec<String>)
    ensures
        final(out)@ == old(out)@ + enc_arr(items.deep_view()),
{
    let ghost base = out@;
    let ghost ssv = items.deep_view();
    push_char(out, '[');
    if items.len() > 0 {
        encode_quoted_into(out, items[0].as_str());
        assert(out@ =~= base + seq!['['] + quote(ssv[0]) + enc_rest(ssv.subrange(1, 1)));
        let mut i: usize = 1;
        while i < items.len()
            invariant
                1 <= i <= items.len(),
                ssv == items.deep_view(),
                ssv.len() == items.len(),
                out@ == base + seq!['['] + quote(ssv[0]) + enc_rest(ssv.subrange(1, i as int)),
            decreases items.len() - i,
        {
            push_char(out, ',');
            encode_quoted_into(out, items[i].as_str());
            proof {
                lemma_enc_rest_push(ssv.subrange(1, i as int), ssv[i as int]);
                assert(ssv.subrange(1, i as int).push(ssv[i as int]) =~= ssv.subrange(
                    1,
                    i + 1,
                ));
                assert(out@ =~= base + seq!['['] + quote(ssv[0]) + enc_rest(
                    ssv.subrange(1, i + 1),
                ));
            }
            i = i + 1;
        }
        assert(ssv.subrange(1, ssv.len() as int) =~= ssv.skip(1));
    }
    push_char(out, ']');
    assert(out@ =~= base + enc_arr(ssv));
}

/// Appends the wire form of an argument payload to `out`.
fn encode_args_into(out: &mut String, args: &CommandArgs)
    ensures
        final(out)@ == old(out)@ + enc_args(args@),
{
    match args {
        CommandArgs::Null => {
            out.append("null");
        },
        CommandArgs::Paths(ps) => {
            encode_array_into(out, ps);
        },
    }
}

/// Serializes a command request to its one wire frame.
///
/// The command name must be non-empty: it identifies a remote operation,
/// and the remote contract admits no nameless request.
pub fn encode_request(req: &CommandRequest) -> (r: String)
    requires
        req.command@.len() > 0,
    ensures
        r@ == enc_request(req@),
{
    let mut out = String::new();
    out.append("{\"command\":");
    encode_quoted_into(&mut out, req.command.as_str());
    out.append(",\"args\":");
    encode_args_into(&mut out, &req.args);
    push_char(&mut out, '}');
    assert(out@ =~= enc_request(req@));
    out
}

/// Serializes a scan state to its one wire frame, the same frame the
/// remote engine answers with and the page-state accessor hands to the
/// presentation layer.
pub fn encode_state(state: &ScanState) -> (r: String)
    ensures
        r@ == enc_state(state@),
{
    let mut out = String::new();
    match state {
        ScanState::Idle => {
            out.append("\"Idle\"");
        },
        ScanState::Scanning(p) => {
            out.append("{\"Scanning\":");
            encode_quoted_into(&mut out, p.as_str());
            push_char(&mut out, '}');
        },
        ScanState::Finished(fs) => {
            out.append("{\"Finished\":");
            encode_array_into(&mut out, fs);
            push_char(&mut out, '}');
        },
        ScanState::FinishedWithError(e) => {
            out.append("{\"FinishedWithError\":");
            encode_quoted_into(&mut out, e.as_str());
            push_char(&mut out, '}');
        },
    }
    assert(out@ =~= enc_state(state@));
    out
}

/// Serializes the unit answer: the frame the engine sends back for a
/// command that returns nothing.
pub fn encode_unit() -> (r: String)
    ensures
        r@ == unit_wire(),
{
    let mut out = String::new();
    out.append("null");
    out
}

// ----------------------------------------------------------------------------
// Executable decoding: one function per grammar construct, each proved to
// compute exactly what the specification decoder yields on its input.
// ----------------------------------------------------------------------------

/// Consumes `lit` at position `i`, if it stands there.
fn expect_lit(inp: &str, i: usize, lit: &str) -> (r: Option<usize>)
    requires
        i <= inp@.len(),
    ensures
        match r {
            Some(j) => j == i + lit@.len() && j <= inp@.len() && starts_with(
                inp@.skip(i as int),
                lit@,
            ),
            None => !starts_with(inp@.skip(i as int), lit@),
        },
{
    let n = inp.unicode_len();
    let m = lit.unicode_len();
    if n - i < m {
        return None;
    }
    let mut k: usize = 0;
    while k < m
        invariant
            i + m <= n,
            k <= m,
            n == inp@.len(),
            m == lit@.len(),
            forall|x: int| 0 <= x < k ==> inp@.skip(i as int)[x] == lit@[x],
        decreases m - k,
    {
        let a = inp.get_char(i + k);
        let b = lit.get_char(k);
        if a != b {
            proof {
                if starts_with(inp@.skip(i as int), lit@) {
                    assert(inp@.skip(i as int).take(m as int)[k as int] == lit@[k as int]);
                }
            }
            return None;
        }
        assert(inp@.skip(i as int)[k as int] == inp@[i + k]);
        k = k + 1;
    }
    proof {
        assert(inp@.skip(i as int).take(m as int) =~= lit@);
    }
    Some(i + m)
}

/// Parses a string body from position `i` (just past the opening quote) up
/// to and including the closing quote, undoing the two escapes.
fn parse_str_body(inp: &str, i: usize) -> (r: Option<(String, usize)>)
    requires
        i <= inp@.len(),
    ensures
        match r {
            Some(sj) => i < sj.1 <= inp@.len() && dec_str_body(inp@.skip(i as int)) == Some(
                (sj.0@, inp@.skip(sj.1 as int)),
            ),
            None => dec_str_body(inp@.skip(i as int)) is None,
        },
    decreases inp@.len() - i,
{
    let n = inp.unicode_len();
    let ghost t = inp@.skip(i as int);
    if i == n {
        return None;
    }
    let c = inp.get_char(i);
    assert(t[0] == c);
    if c == '"' {
        assert(t.skip(1) =~= inp@.skip(i + 1));
        Some((String::new(), i + 1))
    } else if c == '\\' {
        if i + 1 < n {
            let c2 = inp.get_char(i + 1);
            assert(t[1] == c2);
            if c2 == '"' || c2 == '\\' {
                assert(t.skip(2) =~= inp@.skip(i + 2));
                match parse_str_body(inp, i + 2) {
                    Some((s, j)) => {
                        let mut pre = String::new();
                        push_char(&mut pre, c2);
                        let res = pre.concat(s.as_str());
                        assert(res@ =~= seq![t[1]] + s@);
                        Some((res, j))
                    },
                    None => None,
                }
            } else {
                None
            }
        } else {
            assert(t.len() == 1);
            None
        }
    } else {
        assert(t.skip(1) =~= inp@.skip(i + 1));
        match parse_str_body(inp, i + 1) {
            Some((s, j)) => {
                let mut pre = String::new();
                push_char(&mut pre, c);
                let res = pre.concat(s.as_str());
                assert(res@ =~= seq![t[0]] + s@);
                Some((res, j))
            },
            None => None,
        }
    }
}

/// Parses one or more comma-separated quoted items and the closing
/// bracket, from position `i` (just past the opening bracket).
fn parse_items(inp: &str, i: usize) -> (r: Option<(Vec<String>, usize)>)
    requires
        i <= inp@.len(),
    ensures
        match r {
            Some(vj) => i < vj.1 <= inp@.len() && dec_items(inp@.skip(i as int)) == Some(
                (vj.0.deep_view(), inp@.skip(vj.1 as int)),
            ),
            None => dec_items(inp@.skip(i as int)) is None,
        },
    decreases inp@.len() - i,
{
    let n = inp.unicode_len();
    let ghost t = inp@.skip(i as int);
    if i < n && inp.get_char(i) == '"' {
        assert(t[0] == '"');
        assert(t.skip(1) =~= inp@.skip(i + 1));
        match parse_str_body(inp, i + 1) {
            Some((s, j)) => {
                if j < n && inp.get_char(j) == ']' {
                    assert(inp@.skip(j as int)[0] == inp@[j as int]);
                    let mut vs: Vec<String> = Vec::new();
                    vs.push(s);
                    proof {
                        assert(vs.deep_view() =~= seq![vs@[0]@]);
                        assert(inp@.skip(j as int).skip(1) =~= inp@.skip(j + 1));
                    }
                    Some((vs, j + 1))
                } else if j < n && inp.get_char(j) == ',' {
                    assert(inp@.skip(j as int)[0] == inp@[j as int]);
                    assert(inp@.skip(j as int).skip(1) =~= inp@.skip(j + 1));
                    match parse_items(inp, j + 1) {
                        Some((mut vs2, j2)) => {
                            let ghost dv2 = vs2.deep_view();
                            let mut vs: Vec<String> = Vec::new();
                            vs.push(s);
                            vs.append(&mut vs2);
                            proof {
                                assert(vs.deep_view() =~= seq![s@] + dv2);
                            }
                            Some((vs, j2))
                        },
                        None => None,
                    }
                } else {
                    proof {
                        if j < n {
                            assert(inp@.skip(j as int)[0] == inp@[j as int]);
                        }
                    }
                    None
                }
            },
            None => None,
        }
    } else {
        None
    }
}

/// Consumes the closing brace that must be the whole rest of the frame.
fn expect_final_brace(inp: &str, i: usize) -> (r: bool)
    requires
        i <= inp@.len(),
    ensures
        r == (inp@.skip(i as int) == seq!['}']),
{
    let n = inp.unicode_len();
    if i < n && n - i == 1 {
        let c = inp.get_char(i);
        proof {
            assert(inp@.skip(i as int)[0] == inp@[i as int]);
            assert(inp@.skip(i as int).len() == 1);
            if c == '}' {
                assert(inp@.skip(i as int) =~= seq!['}']);
            } else {
                assert(inp@.skip(i as int) != seq!['}']);
            }
        }
        c == '}'
    } else {
        proof {
            assert(inp@.skip(i as int).len() != 1);
        }
        false
    }
}

/// Parses a whole array from position `i`.
fn parse_arr(inp: &str, i: usize) -> (r: Option<(Vec<String>, usize)>)
    requires
        i <= inp@.len(),
    ensures
        match r {
            Some(vj) => i < vj.1 <= inp@.len() && dec_arr(inp@.skip(i as int)) == Some(
                (vj.0.deep_view(), inp@.skip(vj.1 as int)),
            ),
            None => dec_arr(inp@.skip(i as int)) is None,
        },
{
    let n = inp.unicode_len();
    let ghost t = inp@.skip(i as int);
    if i < n && inp.get_char(i) == '[' {
        assert(t[0] == '[');
        if i + 1 < n && inp.get_char(i + 1) == ']' {
            assert(t[1] == ']');
            let vs: Vec<String> = Vec::new();
            proof {
                assert(vs.deep_view() =~= Seq::<Seq<char>>::empty());
                assert(t.skip(2) =~= inp@.skip(i + 2));
            }
            Some((vs, i + 2))
        } else {
            assert(t.len() >= 2 ==> t[1] != ']') by {
                if i + 1 < n {
                    assert(t[1] == inp@[i + 1]);
                }
            }
            assert(t.skip(1) =~= inp@.skip(i + 1));
            parse_items(inp, i + 1)
        }
    } else {
        None
    }
}

/// Parses an argument payload from position `i`.
fn parse_args(inp: &str, i: usize) -> (r: Option<(CommandArgs, usize)>)
    requires
        i <= inp@.len(),
    ensures
        match r {
            Some(aj) => i < aj.1 <= inp@.len() && dec_args(inp@.skip(i as int)) == Some(
                (aj.0@, inp@.skip(aj.1 as int)),
            ),
            None => dec_args(inp@.skip(i as int)) is None,
        },
{
    proof {
        reveal_strlit("null");
    }
    let ghost t = inp@.skip(i as int);
    match expect_lit(inp, i, "null") {
        Some(j) => {
            proof {
                assert(t.skip(unit_wire().len() as int) =~= inp@.skip(j as int));
            }
            Some((CommandArgs::Null, j))
        },
        None => {
            match parse_arr(inp, i) {
                Some((vs, j)) => Some((CommandArgs::Paths(vs), j)),
                None => None,
            }
        },
    }
}

/// Deserializes one request frame, as the remote engine does on receipt.
/// The result is exactly the specification decoder's: a genuine frame and
/// nothing else is accepted, and only as the request it encodes.
pub fn decode_request(inp: &str) -> (r: Option<CommandRequest>)
    ensures
        match r {
            Some(req) => dec_request(inp@) == Some(req@),
            None => dec_request(inp@) is None,
        },
{
    let n = inp.unicode_len();
    proof {
        assert(inp@.skip(0) =~= inp@);
    }
    match expect_lit(inp, 0, "{\"command\":") {
        Some(j0) => {
            let ghost t1 = inp@.skip(pre_request().len() as int);
            assert(t1 =~= inp@.skip(j0 as int));
            if j0 < n && inp.get_char(j0) == '"' {
                assert(t1[0] == '"');
                assert(t1.skip(1) =~= inp@.skip(j0 + 1));
                match parse_str_body(inp, j0 + 1) {
                    Some((cmd, j1)) => {
                        if cmd.as_str().unicode_len() > 0 {
                            match expect_lit(inp, j1, ",\"args\":") {
                                Some(j2) => {
                                    assert(inp@.skip(j1 as int).skip(mid_request().len() as int)
                                        =~= inp@.skip(j2 as int));
                                    match parse_args(inp, j2) {
                                        Some((args, j3)) => {
                                            if expect_final_brace(inp, j3) {
                                                Some(CommandRequest { command: cmd, args })
                                            } else {
                                                None
                                            }
                                        },
                                        None => None,
                                    }
                                },
                                None => None,
                            }
                        } else {
                            None
                        }
                    },
                    None => None,
                }
            } else {
                proof {
                    if t1.len() > 0 {
                        assert(t1[0] == inp@[j0 as int]);
                    }
                }
                None
            }
        },
        None => None,
    }
}

/// Deserializes one scan state answer frame. The result is exactly the
/// specification decoder's: a frame that is not a genuine encoding of some
/// scan state decodes to nothing, never to a default value.
pub fn decode_state(inp: &str) -> (r: Option<ScanState>)
    ensures
        match r {
            Some(v) => dec_state(inp@) == Some(v@),
            None => dec_state(inp@) is None,
        },
{
    let n = inp.unicode_len();
    proof {
        assert(inp@.skip(0) =~= inp@);
    }
    match expect_lit(inp, 0, "\"Idle\"") {
        Some(j) => {
            if j == n {
                proof {
                    assert(inp@.take(lit_idle().len() as int) =~= inp@);
                }
                return Some(ScanState::Idle);
            }
            assert(inp@ != lit_idle());
        },
        None => {
            proof {
                if inp@ == lit_idle() {
                    assert(inp@.take(lit_idle().len() as int) =~= lit_idle());
                }
            }
        },
    }
    match expect_lit(inp, 0, "{\"Scanning\":") {
        Some(j0) => {
            let ghost t1 = inp@.skip(pre_scanning().len() as int);
            assert(t1 =~= inp@.skip(j0 as int));
            if j0 < n && inp.get_char(j0) == '"' {
                assert(t1[0] == '"');
                assert(t1.skip(1) =~= inp@.skip(j0 + 1));
                match parse_str_body(inp, j0 + 1) {
                    Some((p, j1)) => {
                        if expect_final_brace(inp, j1) {
                            return Some(ScanState::Scanning(p));
                        }
                        return None;
                    },
                    None => {
                        return None;
                    },
                }
            }
            proof {
                if t1.len() > 0 {
                    assert(t1[0] == inp@[j0 as int]);
                }
            }
            return None;
        },
        None => {},
    }
    match expect_lit(inp, 0, "{\"Finished\":") {
        Some(j0) => {
            assert(inp@.skip(pre_finished().len() as int) =~= inp@.skip(j0 as int));
            match parse_arr(inp, j0) {
                Some((fs, j1)) => {
                    if expect_final_brace(inp, j1) {
                        return Some(ScanState::Finished(fs));
                    }
                    return None;
                },
                None => {
                    return None;
                },
            }
        },
        None => {},
    }
    match expect_lit(inp, 0, "{\"FinishedWithError\":") {
        Some(j0) => {
            let ghost t1 = inp@.skip(pre_finished_with_error().len() as int);
            assert(t1 =~= inp@.skip(j0 as int));
            if j0 < n && inp.get_char(j0) == '"' {
                assert(t1[0] == '"');
                assert(t1.skip(1) =~= inp@.skip(j0 + 1));
                match parse_str_body(inp, j0 + 1) {
                    Some((e, j1)) => {
                        if expect_final_brace(inp, j1) {
                            return Some(ScanState::FinishedWithError(e));
                        }
                        return None;
                    },
                    None => {
                        return None;
                    },
                }
            }
            proof {
                if t1.len() > 0 {
                    assert(t1[0] == inp@[j0 as int]);
                }
            }
            return None;
        },
        None => {},
    }
    None
}

/// Recognizes the unit answer frame, and nothing else.
pub fn decode_unit(inp: &str) -> (r: bool)
    ensures
        r == (inp@ == unit_wire()),
{
    proof {
        reveal_strlit("null");
        assert(inp@.skip(0) =~= inp@);
    }
    let n = inp.unicode_len();
    match expect_lit(inp, 0, "null") {
        Some(j) => {
            proof {
                if j == n {
                    assert(inp@.take(unit_wire().len() as int) =~= inp@);
                }
                if inp@ == unit_wire() {
                    assert(n == 4);
                }
            }
            j == n
        },
        None => {
            proof {
                if inp@ == unit_wire() {
                    assert(inp@.take(unit_wire().len() as int) =~= unit_wire());
                }
            }
            false
        },
    }
}

// ----------------------------------------------------------------------------
// Laws of the call convention.
// ----------------------------------------------------------------------------

/// Law: the call convention round-trips. For every pair the remote
/// contract accepts (a non-empty command name with either argument
/// payload) and every scan state the engine can hold, serializing and then
/// deserializing yields structurally the very value that went in, on both
/// the request and the answer leg.
pub proof fn lemma_call_round_trip(req: RequestView, reply: StateView)
    requires
        req.command.len() > 0,
    ensures
        dec_request(enc_request(req)) == Some(req),
        dec_state(enc_state(reply)) == Some(reply),
{
    lemma_dec_request_rt(req);
    lemma_dec_state_rt(reply);
}

/// Law: polling is idempotent. Two state reads with no intervening
/// mutation see the same engine-held state, so they decode to the same
/// value — the state the engine holds.
pub proof fn lemma_polling_stable(sv: StateView, t1: Seq<char>, t2: Seq<char>)
    requires
        t1 == enc_state(sv),
        t2 == enc_state(sv),
    ensures
        dec_state(t1) == Some(sv),
        dec_state(t1) == dec_state(t2),
{
    lemma_dec_state_rt(sv);
}

} // verus!

