//! The textual form of the schema: a JSON subset of strings, arrays and
//! objects — all the schema grammar uses. The printer emits canonical
//! compact text; the parser accepts it back, with whitespace between
//! tokens and the usual escapes inside strings.

use vstd::prelude::*;

verus! {

/// A JSON value of the schema subset.
#[derive(Debug, PartialEq, Eq)]
pub enum Json {
    JStr(Vec<char>),
    JArr(Vec<Json>),
    JObj(Vec<(Vec<char>, Json)>),
}

/// The mathematical mirror of [`Json`].
pub enum JsonV {
    JStr(Seq<char>),
    JArr(Seq<JsonV>),
    JObj(Seq<(Seq<char>, JsonV)>),
}

pub open spec fn view_json_seq(js: Seq<Json>) -> Seq<JsonV>
    decreases js,
{
    if js.len() == 0 {
        Seq::empty()
    } else {
        view_json_seq(js.subrange(0, js.len() - 1)).push(view_json(js[js.len() - 1]))
    }
}

pub open spec fn view_json_pairs(js: Seq<(Vec<char>, Json)>) -> Seq<(Seq<char>, JsonV)>
    decreases js,
{
    if js.len() == 0 {
        Seq::empty()
    } else {
        view_json_pairs(js.subrange(0, js.len() - 1)).push(
            (js[js.len() - 1].0@, view_json(js[js.len() - 1].1)),
        )
    }
}

pub open spec fn view_json(j: Json) -> JsonV
    decreases j,
{
    match j {
        Json::JStr(s) => JsonV::JStr(s@),
        Json::JArr(a) => JsonV::JArr(view_json_seq(a@)),
        Json::JObj(o) => JsonV::JObj(view_json_pairs(o@)),
    }
}

impl View for Json {
    type V = JsonV;

    open spec fn view(&self) -> JsonV {
        view_json(*self)
    }
}

/// The views of a value list: as long as the list, pointwise.
pub proof fn lemma_view_json_seq_index(js: Seq<Json>)
    ensures
        view_json_seq(js).len() == js.len(),
        forall|i: int| 0 <= i < js.len() ==> view_json_seq(js)[i] == view_json(#[trigger] js[i]),
    decreases js.len(),
{
    if js.len() > 0 {
        lemma_view_json_seq_index(js.subrange(0, js.len() - 1));
        assert forall|i: int| 0 <= i < js.len() implies view_json_seq(js)[i] == view_json(
            #[trigger] js[i],
        ) by {
            if i < js.len() - 1 {
                assert(js.subrange(0, js.len() - 1)[i] == js[i]);
            }
        }
    }
}

/// The views of a member list: as long as the list, pointwise.
pub proof fn lemma_view_json_pairs_index(js: Seq<(Vec<char>, Json)>)
    ensures
        view_json_pairs(js).len() == js.len(),
        forall|i: int|
            0 <= i < js.len() ==> view_json_pairs(js)[i] == ((#[trigger] js[i]).0@, view_json(
                js[i].1,
            )),
    decreases js.len(),
{
    if js.len() > 0 {
        lemma_view_json_pairs_index(js.subrange(0, js.len() - 1));
        assert forall|i: int| 0 <= i < js.len() implies view_json_pairs(js)[i] == ((
        #[trigger] js[i]).0@, view_json(js[i].1)) by {
            if i < js.len() - 1 {
                assert(js.subrange(0, js.len() - 1)[i] == js[i]);
            }
        }
    }
}

/// How one character is written inside a string literal: the quote, the
/// backslash and the three common control characters are escaped, any
/// other character stands as itself.
pub open spec fn esc_char(c: char) -> Seq<char> {
    if c == '"' {
        "\\\""@
    } else if c == '\\' {
        "\\\\"@
    } else if c == '\n' {
        "\\n"@
    } else if c == '\r' {
        "\\r"@
    } else if c == '\t' {
        "\\t"@
    } else {
        seq![c]
    }
}

/// A whole string's characters, escaped.
pub open spec fn esc(s: Seq<char>) -> Seq<char>
    decreases s.len(),
{
    if s.len() == 0 {
        Seq::empty()
    } else {
        esc(s.subrange(0, s.len() - 1)) + esc_char(s[s.len() - 1])
    }
}

/// The canonical text of a JSON value: compact, no whitespace.
pub open spec fn print_json(j: JsonV) -> Seq<char>
    decreases j, 0int,
{
    match j {
        JsonV::JStr(s) => seq!['"'] + esc(s) + seq!['"'],
        JsonV::JArr(a) => seq!['['] + print_arr_items(a) + seq![']'],
        JsonV::JObj(o) => seq!['{'] + print_obj_items(o) + seq!['}'],
    }
}

/// The comma-separated texts of an array's members.
pub open spec fn print_arr_items(a: Seq<JsonV>) -> Seq<char>
    decreases a, 1int,
{
    if a.len() == 0 {
        Seq::empty()
    } else if a.len() == 1 {
        print_json(a[0])
    } else {
        print_arr_items(a.subrange(0, a.len() - 1)) + seq![','] + print_json(a[a.len() - 1])
    }
}

/// The comma-separated `"key":value` texts of an object's members.
pub open spec fn print_obj_items(o: Seq<(Seq<char>, JsonV)>) -> Seq<char>
    decreases o, 1int,
{
    if o.len() == 0 {
        Seq::empty()
    } else if o.len() == 1 {
        print_obj_member(o[0])
    } else {
        print_obj_items(o.subrange(0, o.len() - 1)) + seq![','] + print_obj_member(o[o.len() - 1])
    }
}

/// One `"key":value` member.
pub open spec fn print_obj_member(m: (Seq<char>, JsonV)) -> Seq<char>
    decreases m, 0int,
{
    seq!['"'] + esc(m.0) + seq!['"'] + seq![':'] + print_json(m.1)
}

/// Whether a character is insignificant whitespace between tokens.
pub open spec fn is_ws(c: char) -> bool {
    c == ' ' || c == '\n' || c == '\r' || c == '\t'
}

/// The character an escape sequence's second character stands for, if the
/// escape is one the parser accepts.
pub open spec fn unesc_char(c: char) -> Option<char> {
    if c == '"' {
        Some('"')
    } else if c == '\\' {
        Some('\\')
    } else if c == '/' {
        Some('/')
    } else if c == 'n' {
        Some('\n')
    } else if c == 'r' {
        Some('\r')
    } else if c == 't' {
        Some('\t')
    } else {
        Option::None
    }
}

/// Parses a value from the front of `s`, leading whitespace allowed;
/// yields the value and the unconsumed suffix.
pub open spec fn parse_value(s: Seq<char>) -> Option<(JsonV, Seq<char>)>
    decreases s.len(), 0int,
{
    if s.len() == 0 {
        Option::None
    } else if is_ws(s[0]) {
        parse_value(s.skip(1))
    } else if s[0] == '"' {
        match parse_string(s.skip(1)) {
            Some((str, rest)) => Some((JsonV::JStr(str), rest)),
            Option::None => Option::None,
        }
    } else if s[0] == '[' {
        parse_arr(s.skip(1))
    } else if s[0] == '{' {
        parse_obj(s.skip(1))
    } else {
        Option::None
    }
}

/// Parses a string literal's body after its opening quote, up to and over
/// the closing quote.
pub open spec fn parse_string(s: Seq<char>) -> Option<(Seq<char>, Seq<char>)>
    decreases s.len(),
{
    if s.len() == 0 {
        Option::None
    } else if s[0] == '"' {
        Some((Seq::empty(), s.skip(1)))
    } else if s[0] == '\\' {
        if s.len() < 2 {
            Option::None
        } else {
            match unesc_char(s[1]) {
                Option::None => Option::None,
                Some(c) => match parse_string(s.skip(2)) {
                    Some((str, rest)) => Some((seq![c] + str, rest)),
                    Option::None => Option::None,
                },
            }
        }
    } else {
        match parse_string(s.skip(1)) {
            Some((str, rest)) => Some((seq![s[0]] + str, rest)),
            Option::None => Option::None,
        }
    }
}

/// Parses an array's members after its opening bracket.
pub open spec fn parse_arr(s: Seq<char>) -> Option<(JsonV, Seq<char>)>
    decreases s.len(), 2int,
{
    if s.len() == 0 {
        Option::None
    } else if is_ws(s[0]) {
        parse_arr(s.skip(1))
    } else if s[0] == ']' {
        Some((JsonV::JArr(Seq::empty()), s.skip(1)))
    } else {
        match parse_value(s) {
            Option::None => Option::None,
            Some((v, rest)) => if rest.len() < s.len() {
                parse_arr_rest(rest, seq![v])
            } else {
                Option::None
            },
        }
    }
}

/// Parses an array's remaining members after at least one has been read.
pub open spec fn parse_arr_rest(s: Seq<char>, acc: Seq<JsonV>) -> Option<(JsonV, Seq<char>)>
    decreases s.len(), 2int,
{
    if s.len() == 0 {
        Option::None
    } else if is_ws(s[0]) {
        parse_arr_rest(s.skip(1), acc)
    } else if s[0] == ']' {
        Some((JsonV::JArr(acc), s.skip(1)))
    } else if s[0] == ',' {
        match parse_value(s.skip(1)) {
            Option::None => Option::None,
            Some((v, rest)) => if rest.len() < s.len() {
                parse_arr_rest(rest, acc.push(v))
            } else {
                Option::None
            },
        }
    } else {
        Option::None
    }
}

/// Parses an object's members after its opening brace.
pub open spec fn parse_obj(s: Seq<char>) -> Option<(JsonV, Seq<char>)>
    decreases s.len(), 2int,
{
    if s.len() == 0 {
        Option::None
    } else if is_ws(s[0]) {
        parse_obj(s.skip(1))
    } else if s[0] == '}' {
        Some((JsonV::JObj(Seq::empty()), s.skip(1)))
    } else if s[0] == '"' {
        match parse_member(s) {
            Option::None => Option::None,
            Some((k, v, rest)) => if rest.len() < s.len() {
                parse_obj_rest(rest, seq![(k, v)])
            } else {
                Option::None
            },
        }
    } else {
        Option::None
    }
}

/// Parses an object's remaining members after at least one has been read.
pub open spec fn parse_obj_rest(s: Seq<char>, acc: Seq<(Seq<char>, JsonV)>) -> Option<
    (JsonV, Seq<char>),
>
    decreases s.len(), 2int,
{
    if s.len() == 0 {
        Option::None
    } else if is_ws(s[0]) {
        parse_obj_rest(s.skip(1), acc)
    } else if s[0] == '}' {
        Some((JsonV::JObj(acc), s.skip(1)))
    } else if s[0] == ',' {
        match parse_member_ws(s.skip(1)) {
            Option::None => Option::None,
            Some((k, v, rest)) => if rest.len() < s.len() {
                parse_obj_rest(rest, acc.push((k, v)))
            } else {
                Option::None
            },
        }
    } else {
        Option::None
    }
}

/// Parses one `"key":value` member, leading whitespace allowed.
pub open spec fn parse_member_ws(s: Seq<char>) -> Option<(Seq<char>, JsonV, Seq<char>)>
    decreases s.len(), 1int,
{
    if s.len() == 0 {
        Option::None
    } else if is_ws(s[0]) {
        parse_member_ws(s.skip(1))
    } else if s[0] == '"' {
        parse_member(s)
    } else {
        Option::None
    }
}

/// Parses one `"key":value` member starting at its opening quote.
pub open spec fn parse_member(s: Seq<char>) -> Option<(Seq<char>, JsonV, Seq<char>)>
    decreases s.len(), 0int,
{
    if s.len() == 0 || s[0] != '"' {
        Option::None
    } else {
        match parse_string(s.skip(1)) {
            Option::None => Option::None,
            Some((k, rest)) => if rest.len() < s.len() {
                match parse_colon_value(rest) {
                    Option::None => Option::None,
                    Some((v, rest2)) => Some((k, v, rest2)),
                }
            } else {
                Option::None
            },
        }
    }
}

/// Parses a colon, then a value, leading whitespace allowed.
pub open spec fn parse_colon_value(s: Seq<char>) -> Option<(JsonV, Seq<char>)>
    decreases s.len(), 1int,
{
    if s.len() == 0 {
        Option::None
    } else if is_ws(s[0]) {
        parse_colon_value(s.skip(1))
    } else if s[0] == ':' {
        parse_value(s.skip(1))
    } else {
        Option::None
    }
}

/// Whether only whitespace remains.
pub open spec fn all_ws(s: Seq<char>) -> bool
    decreases s.len(),
{
    if s.len() == 0 {
        true
    } else {
        is_ws(s[0]) && all_ws(s.skip(1))
    }
}

/// Parses a whole text as one JSON value with nothing but whitespace
/// around it.
pub open spec fn parse_text(s: Seq<char>) -> Option<JsonV> {
    match parse_value(s) {
        Option::None => Option::None,
        Some((j, rest)) => if all_ws(rest) {
            Some(j)
        } else {
            Option::None
        },
    }
}

/// Relies on std's `String::push`: appends exactly the given character to
/// the end of the string.
#[verifier::external_body]
fn push_char(s: &mut String, c: char)
    ensures
        final(s)@ == old(s)@.push(c),
{
    s.push(c);
}

/// The characters of a string, in order.
pub fn str_to_chars(s: &str) -> (r: Vec<char>)
    ensures
        r@ == s@,
{
    let n = s.unicode_len();
    let mut r: Vec<char> = Vec::new();
    let mut i: usize = 0;
    while i < n
        invariant
            i <= n,
            n == s@.len(),
            r@ =~= s@.subrange(0, i as int),
        decreases n - i,
    {
        r.push(s.get_char(i));
        proof {
            assert(r@ =~= s@.subrange(0, i + 1));
        }
        i = i + 1;
    }
    proof {
        assert(s@.subrange(0, n as int) =~= s@);
    }
    r
}

/// Appends the escaped form of the characters to the output.
fn append_esc(out: &mut String, s: &Vec<char>)
    ensures
        final(out)@ == old(out)@ + esc(s@),
{
    let n = s.len();
    let mut i: usize = 0;
    proof {
        assert(s@.subrange(0, 0) =~= Seq::<char>::empty());
        assert(out@ =~= out@ + esc(s@.subrange(0, 0)));
    }
    while i < n
        invariant
            i <= n,
            n == s@.len(),
            out@ == old(out)@ + esc(s@.subrange(0, i as int)),
        decreases n - i,
    {
        let c = s[i];
        if c == '"' {
            out.append("\\\"");
        } else if c == '\\' {
            out.append("\\\\");
        } else if c == '\n' {
            out.append("\\n");
        } else if c == '\r' {
            out.append("\\r");
        } else if c == '\t' {
            out.append("\\t");
        } else {
            push_char(out, c);
        }
        proof {
            assert(s@.subrange(0, i + 1).subrange(0, i as int) =~= s@.subrange(0, i as int));
            assert(s@.subrange(0, i + 1)[i as int] == s@[i as int]);
            if !(c == '"' || c == '\\' || c == '\n' || c == '\r' || c == '\t') {
                assert(esc_char(c) =~= seq![c]);
            }
            assert(out@ =~= old(out)@ + esc(s@.subrange(0, i + 1)));
        }
        i = i + 1;
    }
    proof {
        assert(s@.subrange(0, n as int) =~= s@);
    }
}

/// Appends the canonical text of a JSON value to the output.
pub fn append_json(out: &mut String, j: &Json)
    ensures
        final(out)@ == old(out)@ + print_json(j@),
    decreases *j, 1int,
{
    match j {
        Json::JStr(s) => {
            out.append("\"");
            append_esc(out, s);
            out.append("\"");
            proof {
                assert(j@ == JsonV::JStr(s@));
                assert("\""@ =~= seq!['"']) by {
                    reveal_strlit("\"");
                }
                assert(out@ =~= old(out)@ + (seq!['"'] + esc(s@) + seq!['"']));
            }
        },
        Json::JArr(a) => {
            proof {
                assert(j@ == JsonV::JArr(view_json_seq(a@)));
                lemma_view_json_seq_index(a@);
            }
            out.append("[");
            let n = a.len();
            let ghost av = view_json_seq(a@);
            let mut i: usize = 0;
            proof {
                assert(av.subrange(0, 0) =~= Seq::<JsonV>::empty());
                assert("["@ =~= seq!['[']) by {
                    reveal_strlit("[");
                }
                assert(out@ =~= old(out)@ + seq!['['] + print_arr_items(av.subrange(0, 0)));
            }
            while i < n
                invariant
                    i <= n,
                    n == a@.len(),
                    av == view_json_seq(a@),
                    av.len() == n,
                    forall|k: int| 0 <= k < n ==> av[k] == view_json(#[trigger] a@[k]),
                    (*j) is JArr,
                    j->JArr_0@ == a@,
                    out@ == old(out)@ + seq!['['] + print_arr_items(av.subrange(0, i as int)),
                decreases n - i,
            {
                if i > 0 {
                    out.append(",");
                    proof {
                        assert(","@ =~= seq![',']) by {
                            reveal_strlit(",");
                        }
                    }
                }
                proof {
                    assert(decreases_to!(*j => j->JArr_0@[i as int]));
                    assert(a@[i as int] == j->JArr_0@[i as int]);
                }
                append_json(out, &a[i]);
                proof {
                    assert(av.subrange(0, i + 1).subrange(0, i as int) =~= av.subrange(0, i as int));
                    assert(av.subrange(0, i + 1)[i as int] == av[i as int]);
                    assert(out@ =~= old(out)@ + seq!['['] + print_arr_items(av.subrange(0, i + 1)));
                }
                i = i + 1;
            }
            out.append("]");
            proof {
                assert(av.subrange(0, n as int) =~= av);
                assert("]"@ =~= seq![']']) by {
                    reveal_strlit("]");
                }
                assert(out@ =~= old(out)@ + (seq!['['] + print_arr_items(av) + seq![']']));
            }
        },
        Json::JObj(o) => {
            proof {
                assert(j@ == JsonV::JObj(view_json_pairs(o@)));
                lemma_view_json_pairs_index(o@);
            }
            out.append("{");
            let n = o.len();
            let ghost ov = view_json_pairs(o@);
            let mut i: usize = 0;
            proof {
                assert(ov.subrange(0, 0) =~= Seq::<(Seq<char>, JsonV)>::empty());
                assert("{"@ =~= seq!['{']) by {
                    reveal_strlit("{");
                }
                assert(out@ =~= old(out)@ + seq!['{'] + print_obj_items(ov.subrange(0, 0)));
            }
            while i < n
                invariant
                    i <= n,
                    n == o@.len(),
                    ov == view_json_pairs(o@),
                    ov.len() == n,
                    forall|k: int|
                        0 <= k < n ==> ov[k] == ((#[trigger] o@[k]).0@, view_json(o@[k].1)),
                    (*j) is JObj,
                    j->JObj_0@ == o@,
                    out@ == old(out)@ + seq!['{'] + print_obj_items(ov.subrange(0, i as int)),
                decreases n - i,
            {
                if i > 0 {
                    out.append(",");
                    proof {
                        assert(","@ =~= seq![',']) by {
                            reveal_strlit(",");
                        }
                    }
                }
                out.append("\"");
                append_esc(out, &o[i].0);
                out.append("\":");
                proof {
                    assert(decreases_to!(*j => j->JObj_0@[i as int].1));
                    assert(o@[i as int].1 == j->JObj_0@[i as int].1);
                }
                append_json(out, &o[i].1);
                proof {
                    assert(ov.subrange(0, i + 1).subrange(0, i as int) =~= ov.subrange(0, i as int));
                    assert(ov.subrange(0, i + 1)[i as int] == ov[i as int]);
                    assert("\""@ =~= seq!['"']) by {
                        reveal_strlit("\"");
                    }
                    assert("\":"@ =~= seq!['"'] + seq![':']) by {
                        reveal_strlit("\":");
                    }
                    assert(print_obj_member(ov[i as int]) =~= seq!['"'] + esc(o@[i as int].0@)
                        + seq!['"'] + seq![':'] + print_json(view_json(o@[i as int].1)));
                    assert(out@ =~= old(out)@ + seq!['{'] + print_obj_items(ov.subrange(0, i + 1)));
                }
                i = i + 1;
            }
            out.append("}");
            proof {
                assert(ov.subrange(0, n as int) =~= ov);
                assert("}"@ =~= seq!['}']) by {
                    reveal_strlit("}");
                }
                assert(out@ =~= old(out)@ + (seq!['{'] + print_obj_items(ov) + seq!['}']));
            }
        },
    }
}


/// Viewing a pushed value list views the pushed value last.
pub proof fn lemma_view_json_seq_push(js: Seq<Json>, j: Json)
    ensures
        view_json_seq(js.push(j)) == view_json_seq(js).push(view_json(j)),
{
    assert(js.push(j).subrange(0, js.push(j).len() - 1) =~= js);
    assert(js.push(j)[js.push(j).len() - 1] == j);
}

/// Viewing a pushed member list views the pushed member last.
pub proof fn lemma_view_json_pairs_push(js: Seq<(Vec<char>, Json)>, m: (Vec<char>, Json))
    ensures
        view_json_pairs(js.push(m)) == view_json_pairs(js).push((m.0@, view_json(m.1))),
{
    assert(js.push(m).subrange(0, js.push(m).len() - 1) =~= js);
    assert(js.push(m)[js.push(m).len() - 1] == m);
}

/// Decides [`is_ws`].
fn ws_char(c: char) -> (r: bool)
    ensures
        r == is_ws(c),
{
    c == ' ' || c == '\n' || c == '\r' || c == '\t'
}

/// Parses a value at `pos`; yields the value and the position after it.
fn p_value(s: &Vec<char>, pos: usize) -> (r: Option<(Json, usize)>)
    requires
        pos <= s@.len(),
    ensures
        match r {
            Some(jp) => pos <= jp.1 <= s@.len() && parse_value(s@.skip(pos as int)) == Some(
                (jp.0@, s@.skip(jp.1 as int)),
            ),
            Option::None => parse_value(s@.skip(pos as int)) is None,
        },
    decreases s@.len() - pos, 0int,
{
    let ghost ss = s@.skip(pos as int);
    if pos == s.len() {
        proof {
            assert(ss =~= Seq::<char>::empty());
        }
        return Option::None;
    }
    proof {
        assert(ss[0] == s@[pos as int]);
        assert(ss.skip(1) =~= s@.skip(pos + 1));
    }
    let c = s[pos];
    if ws_char(c) {
        p_value(s, pos + 1)
    } else if c == '"' {
        match p_string(s, pos + 1) {
            Some((cs, p)) => {
                proof {
                    assert(Json::JStr(cs)@ == JsonV::JStr(cs@));
                }
                Some((Json::JStr(cs), p))
            },
            Option::None => Option::None,
        }
    } else if c == '[' {
        p_arr(s, pos + 1)
    } else if c == '{' {
        p_obj(s, pos + 1)
    } else {
        Option::None
    }
}

/// Parses a string literal's body at `pos`, after the opening quote.
fn p_string(s: &Vec<char>, pos: usize) -> (r: Option<(Vec<char>, usize)>)
    requires
        pos <= s@.len(),
    ensures
        match r {
            Some(cp) => pos <= cp.1 <= s@.len() && parse_string(s@.skip(pos as int)) == Some(
                (cp.0@, s@.skip(cp.1 as int)),
            ),
            Option::None => parse_string(s@.skip(pos as int)) is None,
        },
    decreases s@.len() - pos,
{
    let ghost ss = s@.skip(pos as int);
    if pos == s.len() {
        proof {
            assert(ss =~= Seq::<char>::empty());
        }
        return Option::None;
    }
    proof {
        assert(ss[0] == s@[pos as int]);
        assert(ss.skip(1) =~= s@.skip(pos + 1));
    }
    let c = s[pos];
    if c == '"' {
        let r: Vec<char> = Vec::new();
        proof {
            assert(r@ =~= Seq::<char>::empty());
        }
        Some((r, pos + 1))
    } else if c == '\\' {
        if pos + 1 == s.len() {
            return Option::None;
        }
        proof {
            assert(ss[1] == s@[pos + 1]);
            assert(ss.skip(2) =~= s@.skip(pos + 2));
        }
        let e = s[pos + 1];
        let u: char = if e == '"' {
            '"'
        } else if e == '\\' {
            '\\'
        } else if e == '/' {
            '/'
        } else if e == 'n' {
            '\n'
        } else if e == 'r' {
            '\r'
        } else if e == 't' {
            '\t'
        } else {
            return Option::None;
        };
        proof {
            assert(unesc_char(s@[pos + 1]) == Some(u));
        }
        match p_string(s, pos + 2) {
            Some((mut cs, p)) => {
                let ghost cv = cs@;
                cs.insert(0, u);
                proof {
                    assert(cs@ =~= seq![u] + cv);
                }
                Some((cs, p))
            },
            Option::None => Option::None,
        }
    } else {
        match p_string(s, pos + 1) {
            Some((mut cs, p)) => {
                let ghost cv = cs@;
                cs.insert(0, c);
                proof {
                    assert(cs@ =~= seq![c] + cv);
                }
                Some((cs, p))
            },
            Option::None => Option::None,
        }
    }
}

/// Parses an array's members at `pos`, after the opening bracket.
fn p_arr(s: &Vec<char>, pos: usize) -> (r: Option<(Json, usize)>)
    requires
        pos <= s@.len(),
    ensures
        match r {
            Some(jp) => pos <= jp.1 <= s@.len() && parse_arr(s@.skip(pos as int)) == Some(
                (jp.0@, s@.skip(jp.1 as int)),
            ),
            Option::None => parse_arr(s@.skip(pos as int)) is None,
        },
    decreases s@.len() - pos, 2int,
{
    let ghost ss = s@.skip(pos as int);
    if pos == s.len() {
        proof {
            assert(ss =~= Seq::<char>::empty());
        }
        return Option::None;
    }
    proof {
        assert(ss[0] == s@[pos as int]);
        assert(ss.skip(1) =~= s@.skip(pos + 1));
    }
    let c = s[pos];
    if ws_char(c) {
        p_arr(s, pos + 1)
    } else if c == ']' {
        let r: Vec<Json> = Vec::new();
        proof {
            assert(view_json_seq(r@) =~= Seq::<JsonV>::empty());
            assert(Json::JArr(r)@ == JsonV::JArr(Seq::<JsonV>::empty()));
        }
        Some((Json::JArr(r), pos + 1))
    } else {
        match p_value(s, pos) {
            Option::None => Option::None,
            Some((v, p)) => {
                if p > pos {
                    let mut acc: Vec<Json> = Vec::new();
                    let ghost vv = v@;
                    acc.push(v);
                    proof {
                        assert(acc@.subrange(0, 0) =~= Seq::<Json>::empty());
                        assert(view_json_seq(acc@.subrange(0, 0)) =~= Seq::<JsonV>::empty());
                        assert(view_json(acc@[0]) == vv);
                        assert(view_json_seq(acc@) =~= seq![vv]);
                    }
                    p_arr_rest(s, p, acc)
                } else {
                    Option::None
                }
            },
        }
    }
}

/// Parses an array's remaining members at `pos`, the first being read.
fn p_arr_rest(s: &Vec<char>, pos: usize, acc: Vec<Json>) -> (r: Option<(Json, usize)>)
    requires
        pos <= s@.len(),
    ensures
        match r {
            Some(jp) => pos <= jp.1 <= s@.len() && parse_arr_rest(
                s@.skip(pos as int),
                view_json_seq(acc@),
            ) == Some((jp.0@, s@.skip(jp.1 as int))),
            Option::None => parse_arr_rest(s@.skip(pos as int), view_json_seq(acc@)) is None,
        },
    decreases s@.len() - pos, 2int,
{
    let ghost ss = s@.skip(pos as int);
    if pos == s.len() {
        proof {
            assert(ss =~= Seq::<char>::empty());
        }
        return Option::None;
    }
    proof {
        assert(ss[0] == s@[pos as int]);
        assert(ss.skip(1) =~= s@.skip(pos + 1));
    }
    let c = s[pos];
    if ws_char(c) {
        p_arr_rest(s, pos + 1, acc)
    } else if c == ']' {
        proof {
            assert(Json::JArr(acc)@ == JsonV::JArr(view_json_seq(acc@)));
        }
        Some((Json::JArr(acc), pos + 1))
    } else if c == ',' {
        match p_value(s, pos + 1) {
            Option::None => Option::None,
            Some((v, p2)) => {
                if !(p2 > pos) {
                    return Option::None;
                }
                let mut acc2 = acc;
                let ghost av = view_json_seq(acc2@);
                let ghost vv = v@;
                let ghost a0 = acc2@;
                acc2.push(v);
                proof {
                    assert(acc2@ =~= a0.push(acc2@[a0.len() as int]));
                    lemma_view_json_seq_push(a0, acc2@[a0.len() as int]);
                    assert(view_json_seq(acc2@) =~= av.push(vv));
                }
                p_arr_rest(s, p2, acc2)
            },
        }
    } else {
        Option::None
    }
}

/// Parses an object's members at `pos`, after the opening brace.
fn p_obj(s: &Vec<char>, pos: usize) -> (r: Option<(Json, usize)>)
    requires
        pos <= s@.len(),
    ensures
        match r {
            Some(jp) => pos <= jp.1 <= s@.len() && parse_obj(s@.skip(pos as int)) == Some(
                (jp.0@, s@.skip(jp.1 as int)),
            ),
            Option::None => parse_obj(s@.skip(pos as int)) is None,
        },
    decreases s@.len() - pos, 2int,
{
    let ghost ss = s@.skip(pos as int);
    if pos == s.len() {
        proof {
            assert(ss =~= Seq::<char>::empty());
        }
        return Option::None;
    }
    proof {
        assert(ss[0] == s@[pos as int]);
        assert(ss.skip(1) =~= s@.skip(pos + 1));
    }
    let c = s[pos];
    if ws_char(c) {
        p_obj(s, pos + 1)
    } else if c == '}' {
        let r: Vec<(Vec<char>, Json)> = Vec::new();
        proof {
            assert(view_json_pairs(r@) =~= Seq::<(Seq<char>, JsonV)>::empty());
            assert(Json::JObj(r)@ == JsonV::JObj(Seq::<(Seq<char>, JsonV)>::empty()));
        }
        Some((Json::JObj(r), pos + 1))
    } else if c == '"' {
        match p_member(s, pos) {
            Option::None => Option::None,
            Some((k, v, p)) => {
                if p > pos {
                    let mut acc: Vec<(Vec<char>, Json)> = Vec::new();
                    let ghost kv = k@;
                    let ghost vv = v@;
                    acc.push((k, v));
                    proof {
                        assert(acc@.subrange(0, 0) =~= Seq::<(Vec<char>, Json)>::empty());
                        assert(view_json_pairs(acc@.subrange(0, 0)) =~= Seq::<
                            (Seq<char>, JsonV),
                        >::empty());
                        assert(acc@[0].0@ == kv && view_json(acc@[0].1) == vv);
                        assert(view_json_pairs(acc@) =~= seq![(kv, vv)]);
                    }
                    p_obj_rest(s, p, acc)
                } else {
                    Option::None
                }
            },
        }
    } else {
        Option::None
    }
}

/// Parses an object's remaining members at `pos`, the first being read.
fn p_obj_rest(s: &Vec<char>, pos: usize, acc: Vec<(Vec<char>, Json)>) -> (r: Option<(Json, usize)>)
    requires
        pos <= s@.len(),
    ensures
        match r {
            Some(jp) => pos <= jp.1 <= s@.len() && parse_obj_rest(
                s@.skip(pos as int),
                view_json_pairs(acc@),
            ) == Some((jp.0@, s@.skip(jp.1 as int))),
            Option::None => parse_obj_rest(s@.skip(pos as int), view_json_pairs(acc@)) is None,
        },
    decreases s@.len() - pos, 2int,
{
    let ghost ss = s@.skip(pos as int);
    if pos == s.len() {
        proof {
            assert(ss =~= Seq::<char>::empty());
        }
        return Option::None;
    }
    proof {
        assert(ss[0] == s@[pos as int]);
        assert(ss.skip(1) =~= s@.skip(pos + 1));
    }
    let c = s[pos];
    if ws_char(c) {
        p_obj_rest(s, pos + 1, acc)
    } else if c == '}' {
        proof {
            assert(Json::JObj(acc)@ == JsonV::JObj(view_json_pairs(acc@)));
        }
        Some((Json::JObj(acc), pos + 1))
    } else if c == ',' {
        match p_member_ws(s, pos + 1) {
            Option::None => Option::None,
            Some((k, v, p2)) => {
                if !(p2 > pos) {
                    return Option::None;
                }
                let mut acc2 = acc;
                let ghost av = view_json_pairs(acc2@);
                let ghost kv = k@;
                let ghost vv = v@;
                let ghost a0 = acc2@;
                acc2.push((k, v));
                proof {
                    assert(acc2@ =~= a0.push(acc2@[a0.len() as int]));
                    lemma_view_json_pairs_push(a0, acc2@[a0.len() as int]);
                    assert(view_json_pairs(acc2@) =~= av.push((kv, vv)));
                }
                p_obj_rest(s, p2, acc2)
            },
        }
    } else {
        Option::None
    }
}

/// Parses one member at `pos`, leading whitespace allowed.
fn p_member_ws(s: &Vec<char>, pos: usize) -> (r: Option<(Vec<char>, Json, usize)>)
    requires
        pos <= s@.len(),
    ensures
        match r {
            Some(kvp) => pos <= kvp.2 <= s@.len() && parse_member_ws(s@.skip(pos as int)) == Some(
                (kvp.0@, kvp.1@, s@.skip(kvp.2 as int)),
            ),
            Option::None => parse_member_ws(s@.skip(pos as int)) is None,
        },
    decreases s@.len() - pos, 1int,
{
    let ghost ss = s@.skip(pos as int);
    if pos == s.len() {
        proof {
            assert(ss =~= Seq::<char>::empty());
        }
        return Option::None;
    }
    proof {
        assert(ss[0] == s@[pos as int]);
        assert(ss.skip(1) =~= s@.skip(pos + 1));
    }
    let c = s[pos];
    if ws_char(c) {
        p_member_ws(s, pos + 1)
    } else if c == '"' {
        p_member(s, pos)
    } else {
        Option::None
    }
}

/// Parses one `"key":value` member starting at its opening quote.
fn p_member(s: &Vec<char>, pos: usize) -> (r: Option<(Vec<char>, Json, usize)>)
    requires
        pos <= s@.len(),
    ensures
        match r {
            Some(kvp) => pos <= kvp.2 <= s@.len() && parse_member(s@.skip(pos as int)) == Some(
                (kvp.0@, kvp.1@, s@.skip(kvp.2 as int)),
            ),
            Option::None => parse_member(s@.skip(pos as int)) is None,
        },
    decreases s@.len() - pos, 0int,
{
    let ghost ss = s@.skip(pos as int);
    if pos == s.len() {
        proof {
            assert(ss =~= Seq::<char>::empty());
        }
        return Option::None;
    }
    proof {
        assert(ss[0] == s@[pos as int]);
        assert(ss.skip(1) =~= s@.skip(pos + 1));
    }
    if s[pos] != '"' {
        return Option::None;
    }
    let (k, p) = match p_string(s, pos + 1) {
        Option::None => {
            return Option::None;
        },
        Some(kp) => kp,
    };
    if !(p > pos) {
        return Option::None;
    }
    match p_colon_value(s, p) {
        Option::None => Option::None,
        Some((v, p2)) => Some((k, v, p2)),
    }
}

/// Parses a colon and the value after it, leading whitespace allowed.
fn p_colon_value(s: &Vec<char>, pos: usize) -> (r: Option<(Json, usize)>)
    requires
        pos <= s@.len(),
    ensures
        match r {
            Some(jp) => pos <= jp.1 <= s@.len() && parse_colon_value(s@.skip(pos as int)) == Some(
                (jp.0@, s@.skip(jp.1 as int)),
            ),
            Option::None => parse_colon_value(s@.skip(pos as int)) is None,
        },
    decreases s@.len() - pos, 1int,
{
    let ghost ss = s@.skip(pos as int);
    if pos == s.len() {
        proof {
            assert(ss =~= Seq::<char>::empty());
        }
        return Option::None;
    }
    proof {
        assert(ss[0] == s@[pos as int]);
        assert(ss.skip(1) =~= s@.skip(pos + 1));
    }
    let c = s[pos];
    if ws_char(c) {
        p_colon_value(s, pos + 1)
    } else if c == ':' {
        p_value(s, pos + 1)
    } else {
        Option::None
    }
}

/// Decides [`all_ws`] of the suffix at `pos`.
fn all_ws_from(s: &Vec<char>, pos: usize) -> (r: bool)
    requires
        pos <= s@.len(),
    ensures
        r == all_ws(s@.skip(pos as int)),
    decreases s@.len() - pos,
{
    let ghost ss = s@.skip(pos as int);
    if pos == s.len() {
        proof {
            assert(ss =~= Seq::<char>::empty());
        }
        return true;
    }
    proof {
        assert(ss[0] == s@[pos as int]);
        assert(ss.skip(1) =~= s@.skip(pos + 1));
    }
    if ws_char(s[pos]) {
        all_ws_from(s, pos + 1)
    } else {
        false
    }
}

/// Parses a whole text as one JSON value of the schema subset, whitespace
/// around it allowed; `Some` exactly when [`parse_text`] accepts the text.
pub fn parse_json_str(s: &str) -> (r: Option<Json>)
    ensures
        match r {
            Some(j) => parse_text(s@) == Some(j@),
            Option::None => parse_text(s@) is None,
        },
{
    let cs = str_to_chars(s);
    proof {
        assert(cs@.skip(0) =~= s@);
    }
    match p_value(&cs, 0) {
        Option::None => Option::None,
        Some((j, p)) => {
            if all_ws_from(&cs, p) {
                Some(j)
            } else {
                Option::None
            }
        },
    }
}


/// A string holding exactly the given characters.
pub fn chars_to_string(v: &Vec<char>) -> (r: String)
    ensures
        r@ == v@,
{
    let n = v.len();
    let mut out = String::new();
    let mut i: usize = 0;
    while i < n
        invariant
            i <= n,
            n == v@.len(),
            out@ =~= v@.subrange(0, i as int),
        decreases n - i,
    {
        push_char(&mut out, v[i]);
        proof {
            assert(out@ =~= v@.subrange(0, i + 1));
        }
        i = i + 1;
    }
    proof {
        assert(v@.subrange(0, n as int) =~= v@);
    }
    out
}

/// Whether the characters equal the string's characters.
pub fn chars_eq_str(v: &Vec<char>, s: &str) -> (r: bool)
    ensures
        r == (v@ == s@),
{
    let n = s.unicode_len();
    if v.len() != n {
        return false;
    }
    let mut i: usize = 0;
    while i < n
        invariant
            i <= n,
            n == s@.len(),
            n == v@.len(),
            forall|k: int| 0 <= k < i ==> v@[k] == s@[k],
        decreases n - i,
    {
        if v[i] != s.get_char(i) {
            return false;
        }
        i = i + 1;
    }
    proof {
        assert(v@ =~= s@);
    }
    true
}


/// The text an array's members after the first contribute: a comma and the
/// member's text, each.
pub open spec fn arr_tail(b: Seq<JsonV>) -> Seq<char>
    decreases b,
{
    if b.len() == 0 {
        Seq::empty()
    } else {
        seq![','] + print_json(b[0]) + arr_tail(b.skip(1))
    }
}

/// The text an object's members after the first contribute.
pub open spec fn obj_tail(o: Seq<(Seq<char>, JsonV)>) -> Seq<char>
    decreases o,
{
    if o.len() == 0 {
        Seq::empty()
    } else {
        seq![','] + print_obj_member(o[0]) + obj_tail(o.skip(1))
    }
}

/// Appending a member extends the tail text by a comma and its text.
pub proof fn lemma_arr_tail_snoc(b: Seq<JsonV>, x: JsonV)
    ensures
        arr_tail(b.push(x)) == arr_tail(b) + seq![','] + print_json(x),
    decreases b.len(),
{
    if b.len() == 0 {
        assert(b.push(x).skip(1) =~= Seq::<JsonV>::empty());
        assert(b.push(x)[0] == x);
        assert(arr_tail(Seq::<JsonV>::empty()) =~= Seq::<char>::empty());
        assert(arr_tail(b.push(x)) =~= arr_tail(b) + seq![','] + print_json(x));
    } else {
        assert(b.push(x)[0] == b[0]);
        assert(b.push(x).skip(1) =~= b.skip(1).push(x));
        lemma_arr_tail_snoc(b.skip(1), x);
        assert(arr_tail(b.push(x)) =~= arr_tail(b) + seq![','] + print_json(x));
    }
}

/// Appending a member extends the object tail text likewise.
pub proof fn lemma_obj_tail_snoc(o: Seq<(Seq<char>, JsonV)>, x: (Seq<char>, JsonV))
    ensures
        obj_tail(o.push(x)) == obj_tail(o) + seq![','] + print_obj_member(x),
    decreases o.len(),
{
    if o.len() == 0 {
        assert(o.push(x).skip(1) =~= Seq::<(Seq<char>, JsonV)>::empty());
        assert(o.push(x)[0] == x);
        assert(obj_tail(Seq::<(Seq<char>, JsonV)>::empty()) =~= Seq::<char>::empty());
        assert(obj_tail(o.push(x)) =~= obj_tail(o) + seq![','] + print_obj_member(x));
    } else {
        assert(o.push(x)[0] == o[0]);
        assert(o.push(x).skip(1) =~= o.skip(1).push(x));
        lemma_obj_tail_snoc(o.skip(1), x);
        assert(obj_tail(o.push(x)) =~= obj_tail(o) + seq![','] + print_obj_member(x));
    }
}

/// The members' text is the first member's text and the tail.
pub proof fn lemma_arr_items_front(a: Seq<JsonV>)
    requires
        a.len() >= 1,
    ensures
        print_arr_items(a) == print_json(a[0]) + arr_tail(a.skip(1)),
    decreases a.len(),
{
    if a.len() == 1 {
        assert(a.skip(1) =~= Seq::<JsonV>::empty());
        assert(print_arr_items(a) =~= print_json(a[0]) + arr_tail(a.skip(1)));
    } else {
        let dl = a.subrange(0, a.len() - 1);
        lemma_arr_items_front(dl);
        assert(dl[0] == a[0]);
        assert(dl.skip(1).push(a[a.len() - 1]) =~= a.skip(1));
        lemma_arr_tail_snoc(dl.skip(1), a[a.len() - 1]);
        assert(print_arr_items(a) =~= print_json(a[0]) + arr_tail(a.skip(1)));
    }
}

/// The members' text is the first member's text and the tail.
pub proof fn lemma_obj_items_front(o: Seq<(Seq<char>, JsonV)>)
    requires
        o.len() >= 1,
    ensures
        print_obj_items(o) == print_obj_member(o[0]) + obj_tail(o.skip(1)),
    decreases o.len(),
{
    if o.len() == 1 {
        assert(o.skip(1) =~= Seq::<(Seq<char>, JsonV)>::empty());
        assert(print_obj_items(o) =~= print_obj_member(o[0]) + obj_tail(o.skip(1)));
    } else {
        let dl = o.subrange(0, o.len() - 1);
        lemma_obj_items_front(dl);
        assert(dl[0] == o[0]);
        assert(dl.skip(1).push(o[o.len() - 1]) =~= o.skip(1));
        lemma_obj_tail_snoc(dl.skip(1), o[o.len() - 1]);
        assert(print_obj_items(o) =~= print_obj_member(o[0]) + obj_tail(o.skip(1)));
    }
}

/// Escaping reads off the front as it does off the back.
pub proof fn lemma_esc_front(s: Seq<char>)
    requires
        s.len() >= 1,
    ensures
        esc(s) == esc_char(s[0]) + esc(s.skip(1)),
    decreases s.len(),
{
    if s.len() == 1 {
        assert(s.subrange(0, 0) =~= Seq::<char>::empty());
        assert(s.skip(1) =~= Seq::<char>::empty());
        assert(esc(s) =~= esc_char(s[0]) + esc(s.skip(1)));
    } else {
        let dl = s.subrange(0, s.len() - 1);
        lemma_esc_front(dl);
        assert(dl[0] == s[0]);
        assert(dl.skip(1) =~= s.skip(1).subrange(0, s.skip(1).len() - 1));
        assert(s.skip(1)[s.skip(1).len() - 1] == s[s.len() - 1]);
        assert(esc(s) =~= esc_char(s[0]) + esc(s.skip(1)));
    }
}

/// The concrete characters of the escape texts.
proof fn lemma_escape_literals()
    ensures
        "\\\""@ =~= seq!['\\', '"'],
        "\\\\"@ =~= seq!['\\', '\\'],
        "\\n"@ =~= seq!['\\', 'n'],
        "\\r"@ =~= seq!['\\', 'r'],
        "\\t"@ =~= seq!['\\', 't'],
{
    broadcast use vstd::string::group_string_axioms;

    reveal_strlit("\\\"");
    reveal_strlit("\\\\");
    reveal_strlit("\\n");
    reveal_strlit("\\r");
    reveal_strlit("\\t");
}

/// A string body, escaped and closed by a quote, parses back to itself.
pub proof fn lemma_parse_string_esc(s: Seq<char>, rest: Seq<char>)
    ensures
        parse_string(esc(s) + seq!['"'] + rest) == Some((s, rest)),
    decreases s.len(),
{
    lemma_escape_literals();
    if s.len() == 0 {
        assert(esc(s) + seq!['"'] + rest =~= seq!['"'] + rest);
        assert((seq!['"'] + rest)[0] == '"');
        assert((seq!['"'] + rest).skip(1) =~= rest);
    } else {
        lemma_esc_front(s);
        let input = esc(s) + seq!['"'] + rest;
        let c = s[0];
        lemma_parse_string_esc(s.skip(1), rest);
        if c == '"' || c == '\\' || c == '\n' || c == '\r' || c == '\t' {
            assert(esc_char(c).len() == 2);
            assert(esc_char(c)[0] == '\\');
            assert(input =~= esc_char(c) + (esc(s.skip(1)) + seq!['"'] + rest));
            assert(input[0] == '\\');
            assert(input[1] == esc_char(c)[1]);
            assert(unesc_char(input[1]) == Some(c));
            assert(input.skip(2) =~= esc(s.skip(1)) + seq!['"'] + rest);
            assert(seq![c] + s.skip(1) =~= s);
        } else {
            assert(esc_char(c) =~= seq![c]);
            assert(input =~= seq![c] + (esc(s.skip(1)) + seq!['"'] + rest));
            assert(input[0] == c);
            assert(input.skip(1) =~= esc(s.skip(1)) + seq!['"'] + rest);
            assert(seq![c] + s.skip(1) =~= s);
        }
    }
}

/// What a printed value's text begins with: at least two characters, the
/// opening token of its shape, never whitespace or a closing token.
pub proof fn lemma_print_first(j: JsonV)
    ensures
        print_json(j).len() >= 2,
        !is_ws(print_json(j)[0]),
        print_json(j)[0] != ']',
        print_json(j)[0] != '}',
        print_json(j)[0] != ',',
        j is JStr ==> print_json(j)[0] == '"',
        j is JArr ==> print_json(j)[0] == '[',
        j is JObj ==> print_json(j)[0] == '{',
{
    match j {
        JsonV::JStr(s) => {
            assert((seq!['"'] + esc(s) + seq!['"'])[0] == '"');
        },
        JsonV::JArr(a) => {
            assert((seq!['['] + print_arr_items(a) + seq![']'])[0] == '[');
        },
        JsonV::JObj(o) => {
            assert((seq!['{'] + print_obj_items(o) + seq!['}'])[0] == '{');
        },
    }
}

/// A printed value followed by anything parses back to the value, leaving
/// exactly that remainder: the parser inverts the printer.
#[verifier::rlimit(100)]
pub proof fn lemma_parse_print(j: JsonV, rest: Seq<char>)
    ensures
        parse_value(print_json(j) + rest) == Some((j, rest)),
    decreases j, 0int,
{
    let s = print_json(j) + rest;
    lemma_print_first(j);
    assert(s[0] == print_json(j)[0]);
    match j {
        JsonV::JStr(str) => {
            assert(s =~= seq!['"'] + (esc(str) + seq!['"'] + rest));
            assert(s.skip(1) =~= esc(str) + seq!['"'] + rest);
            lemma_parse_string_esc(str, rest);
            assert(parse_string(s.skip(1)) == Some((str, rest)));
            assert(parse_value(s) == Some((JsonV::JStr(str), rest)));
        },
        JsonV::JArr(a) => {
            assert(s =~= seq!['['] + (print_arr_items(a) + seq![']'] + rest));
            let s1 = print_arr_items(a) + seq![']'] + rest;
            assert(s.skip(1) =~= s1);
            if a.len() == 0 {
                assert(print_arr_items(a) =~= Seq::<char>::empty());
                assert(s1 =~= seq![']'] + rest);
                assert(s1[0] == ']');
                assert(s1.skip(1) =~= rest);
                assert(a =~= Seq::<JsonV>::empty());
                assert(parse_arr(s1) == Some((JsonV::JArr(a), rest)));
                assert(parse_value(s) == Some((j, rest)));
            } else {
                lemma_arr_items_front(a);
                lemma_print_first(a[0]);
                let tail = arr_tail(a.skip(1)) + seq![']'] + rest;
                assert(s1 =~= print_json(a[0]) + tail);
                assert(s1[0] == print_json(a[0])[0]);
                assert(decreases_to!(j => a[0]));
                lemma_parse_print(a[0], tail);
                assert(tail.len() < s1.len());
                assert(decreases_to!(j => a.skip(1)));
                lemma_arr_rest_print(a.skip(1), seq![a[0]], rest);
                assert(seq![a[0]] + a.skip(1) =~= a);
                assert(parse_value(s1) == Some((a[0], tail)));
                assert(parse_arr_rest(tail, seq![a[0]]) == Some((JsonV::JArr(a), rest)));
                assert(parse_arr(s1) == Some((JsonV::JArr(a), rest)));
                assert(parse_value(s) == Some((j, rest)));
            }
        },
        JsonV::JObj(o) => {
            assert(s =~= seq!['{'] + (print_obj_items(o) + seq!['}'] + rest));
            let s1 = print_obj_items(o) + seq!['}'] + rest;
            assert(s.skip(1) =~= s1);
            if o.len() == 0 {
                assert(print_obj_items(o) =~= Seq::<char>::empty());
                assert(s1 =~= seq!['}'] + rest);
                assert(s1[0] == '}');
                assert(s1.skip(1) =~= rest);
                assert(o =~= Seq::<(Seq<char>, JsonV)>::empty());
                assert(parse_obj(s1) == Some((JsonV::JObj(o), rest)));
                assert(parse_value(s) == Some((j, rest)));
            } else {
                lemma_obj_items_front(o);
                let tail = obj_tail(o.skip(1)) + seq!['}'] + rest;
                assert(s1 =~= print_obj_member(o[0]) + tail);
                assert(print_obj_member(o[0])[0] == '"');
                assert(s1[0] == '"');
                assert(decreases_to!(j => o[0].1));
                lemma_member_print(o[0].0, o[0].1, tail);
                assert(s1 =~= (seq!['"'] + esc(o[0].0) + seq!['"'] + seq![':'] + print_json(
                    o[0].1,
                )) + tail);
                assert(tail.len() < s1.len()) by {
                    lemma_print_first(o[0].1);
                }
                assert(decreases_to!(j => o.skip(1)));
                lemma_obj_rest_print(o.skip(1), seq![(o[0].0, o[0].1)], rest);
                assert(seq![(o[0].0, o[0].1)] + o.skip(1) =~= o);
                assert(parse_member(s1) == Some((o[0].0, o[0].1, tail)));
                assert(parse_obj_rest(tail, seq![(o[0].0, o[0].1)]) == Some(
                    (JsonV::JObj(o), rest),
                ));
                assert(parse_obj(s1) == Some((JsonV::JObj(o), rest)));
                assert(parse_value(s) == Some((j, rest)));
            }
        },
    }
}

/// One printed member followed by anything parses back to its key and
/// value, leaving exactly that remainder.
#[verifier::rlimit(100)]
pub proof fn lemma_member_print(k: Seq<char>, v: JsonV, rest: Seq<char>)
    ensures
        parse_member(print_obj_member((k, v)) + rest) == Some((k, v, rest)),
    decreases v, 1int,
{
    let s = print_obj_member((k, v)) + rest;
    assert(s =~= seq!['"'] + (esc(k) + seq!['"'] + (seq![':'] + print_json(v) + rest)));
    assert(s[0] == '"');
    let after_key = seq![':'] + print_json(v) + rest;
    assert(s.skip(1) =~= esc(k) + seq!['"'] + after_key);
    lemma_parse_string_esc(k, after_key);
    assert(after_key.len() < s.len()) by {
        lemma_print_first(v);
    }
    assert(after_key[0] == ':');
    assert(!is_ws(':'));
    assert(after_key.skip(1) =~= print_json(v) + rest);
    lemma_parse_print(v, rest);
    assert(parse_string(s.skip(1)) == Some((k, after_key)));
    assert(parse_value(after_key.skip(1)) == Some((v, rest)));
    assert(parse_colon_value(after_key) == Some((v, rest)));
    assert(parse_member(s) == Some((k, v, rest)));
}

/// The remaining members' text, a closing bracket and anything more parse
/// back to the array of what was read and what remains, leaving exactly
/// the remainder after the bracket.
pub proof fn lemma_arr_rest_print(b: Seq<JsonV>, acc: Seq<JsonV>, rest: Seq<char>)
    ensures
        parse_arr_rest(arr_tail(b) + seq![']'] + rest, acc) == Some((JsonV::JArr(acc + b), rest)),
    decreases b, 2int,
{
    let s = arr_tail(b) + seq![']'] + rest;
    if b.len() == 0 {
        assert(arr_tail(b) =~= Seq::<char>::empty());
        assert(s =~= seq![']'] + rest);
        assert(s[0] == ']');
        assert(s.skip(1) =~= rest);
        assert(acc + b =~= acc);
    } else {
        let tail = arr_tail(b.skip(1)) + seq![']'] + rest;
        assert(s =~= seq![','] + (print_json(b[0]) + tail));
        assert(s[0] == ',');
        assert(!is_ws(','));
        assert(s.skip(1) =~= print_json(b[0]) + tail);
        assert(decreases_to!(b => b[0]));
        lemma_parse_print(b[0], tail);
        lemma_print_first(b[0]);
        assert(tail.len() < s.len());
        lemma_arr_rest_print(b.skip(1), acc.push(b[0]), rest);
        assert(acc.push(b[0]) + b.skip(1) =~= acc + b);
    }
}

/// The remaining members' text, a closing brace and anything more parse
/// back likewise for objects.
pub proof fn lemma_obj_rest_print(
    o: Seq<(Seq<char>, JsonV)>,
    acc: Seq<(Seq<char>, JsonV)>,
    rest: Seq<char>,
)
    ensures
        parse_obj_rest(obj_tail(o) + seq!['}'] + rest, acc) == Some((JsonV::JObj(acc + o), rest)),
    decreases o, 2int,
{
    let s = obj_tail(o) + seq!['}'] + rest;
    if o.len() == 0 {
        assert(obj_tail(o) =~= Seq::<char>::empty());
        assert(s =~= seq!['}'] + rest);
        assert(s[0] == '}');
        assert(s.skip(1) =~= rest);
        assert(acc + o =~= acc);
    } else {
        let tail = obj_tail(o.skip(1)) + seq!['}'] + rest;
        assert(s =~= seq![','] + (print_obj_member(o[0]) + tail));
        assert(s[0] == ',');
        assert(!is_ws(','));
        assert(s.skip(1) =~= print_obj_member(o[0]) + tail);
        assert(print_obj_member(o[0])[0] == '"');
        assert((s.skip(1))[0] == '"');
        assert(decreases_to!(o => o[0].1));
        assert(o[0] == (o[0].0, o[0].1));
        lemma_member_print(o[0].0, o[0].1, tail);
        assert(print_obj_member((o[0].0, o[0].1)) == print_obj_member(o[0]));
        assert(tail.len() < s.len()) by {
            lemma_print_first(o[0].1);
        }
        lemma_obj_rest_print(o.skip(1), acc.push(o[0]), rest);
        assert(acc.push((o[0].0, o[0].1)) =~= acc.push(o[0]));
        assert(acc.push(o[0]) + o.skip(1) =~= acc + o);
        assert(parse_member(s.skip(1)) == Some((o[0].0, o[0].1, tail)));
        assert(parse_member_ws(s.skip(1)) == Some((o[0].0, o[0].1, tail)));
        assert(parse_obj_rest(tail, acc.push(o[0])) == Some((JsonV::JObj(acc + o), rest)));
        assert(parse_obj_rest(s, acc) == Some((JsonV::JObj(acc + o), rest)));
    }
}

/// A whole printed text parses back to its value: printing and parsing are
/// inverse.
pub proof fn lemma_parse_print_text(j: JsonV)
    ensures
        parse_text(print_json(j)) == Some(j),
{
    assert(print_json(j) + Seq::<char>::empty() =~= print_json(j));
    lemma_parse_print(j, Seq::empty());
    assert(all_ws(Seq::<char>::empty()));
}

} // verus!
