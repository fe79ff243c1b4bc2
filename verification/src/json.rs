use vstd::prelude::*;
use crate::date::{
    Date, Weekday, iso_date_chars, iso_date_seq, lemma_iso_date_round_trip, parse_iso_date,
    parse_iso_date_x, weekday_short_name, weekday_short_name_chars,
};
use crate::errors::PlanError;
use crate::model::{Day, Meal, MealPlan, MealType, MealV, PlanV, meal_type_name, meal_type_name_chars,
    plan_wf, valid_day};
use crate::nums::{i64_digits_x, int_digits, lemma_parse_int_digits, parse_int_at, parse_int_x};
use crate::text::{chars_to_string, copy_range, is_digit, str_chars};

verus! {

// ---------------------------------------------------------------------------
// String escaping
// ---------------------------------------------------------------------------
/// Escaping of one character inside a quoted string.
pub open spec fn esc_char(c: char) -> Seq<char> {
    if c == '"' {
        seq!['\\', '"']
    } else if c == '\\' {
        seq!['\\', '\\']
    } else if c == '\n' {
        seq!['\\', 'n']
    } else if c == '\r' {
        seq!['\\', 'r']
    } else if c == '\t' {
        seq!['\\', 't']
    } else {
        seq![c]
    }
}

/// Escaped form of a whole string.
pub open spec fn escape(s: Seq<char>) -> Seq<char>
    decreases s.len(),
{
    if s.len() == 0 {
        Seq::empty()
    } else {
        esc_char(s[0]) + escape(s.drop_first())
    }
}

pub open spec fn unesc_char(c: char) -> Option<char> {
    if c == '"' {
        Some('"')
    } else if c == '\\' {
        Some('\\')
    } else if c == 'n' {
        Some('\n')
    } else if c == 'r' {
        Some('\r')
    } else if c == 't' {
        Some('\t')
    } else {
        None
    }
}

/// Reads an escaped string up to and including its closing quote.
pub open spec fn parse_string_body(s: Seq<char>, pos: int) -> Option<(Seq<char>, int)>
    decreases s.len() - pos,
{
    if pos < 0 || pos >= s.len() {
        None
    } else if s[pos] == '"' {
        Some((Seq::empty(), pos + 1))
    } else if s[pos] == '\\' {
        if pos + 1 >= s.len() {
            None
        } else {
            match unesc_char(s[pos + 1]) {
                Some(c) => match parse_string_body(s, pos + 2) {
                    Some((t, p)) => Some((seq![c] + t, p)),
                    None => None,
                },
                None => None,
            }
        }
    } else {
        match parse_string_body(s, pos + 1) {
            Some((t, p)) => Some((seq![s[pos]] + t, p)),
            None => None,
        }
    }
}

proof fn lemma_escape_concat(a: Seq<char>, b: Seq<char>)
    ensures
        escape(a + b) == escape(a) + escape(b),
    decreases a.len(),
{
    if a.len() == 0 {
        assert(a + b =~= b);
        assert(escape(a) + escape(b) =~= escape(b));
    } else {
        assert((a + b)[0] == a[0]);
        assert((a + b).drop_first() =~= a.drop_first() + b);
        lemma_escape_concat(a.drop_first(), b);
        assert(escape(a + b) =~= escape(a) + escape(b));
    }
}

/// An escaped string followed by a closing quote parses back to itself.
pub proof fn lemma_parse_escaped(s: Seq<char>, pos: int, t: Seq<char>)
    requires
        0 <= pos,
        pos + escape(t).len() + 1 <= s.len(),
        forall|i: int| 0 <= i < escape(t).len() ==> s[pos + i] == #[trigger] escape(t)[i],
        s[pos + escape(t).len()] == '"',
    ensures
        parse_string_body(s, pos) == Some((t, pos + escape(t).len() + 1)),
    decreases t.len(),
{
    if t.len() == 0 {
        assert(s[pos] == '"');
    } else {
        let e = esc_char(t[0]);
        let t2 = t.drop_first();
        assert(escape(t) == e + escape(t2));
        assert(forall|i: int| 0 <= i < e.len() ==> #[trigger] escape(t)[i] == e[i]);
        assert(forall|i: int|
            0 <= i < escape(t2).len() ==> #[trigger] escape(t2)[i] == escape(t)[e.len() + i]);
        if e.len() == 2 {
            assert(s[pos] == escape(t)[0]);
            assert(escape(t)[0] == e[0]);
            assert(e[0] == '\\');
            assert(s[pos + 1] == escape(t)[1]);
            assert(escape(t)[1] == e[1]);
            assert(unesc_char(e[1]) == Some(t[0]));
            assert(forall|i: int|
                0 <= i < escape(t2).len() ==> s[pos + 2 + i] == #[trigger] escape(t2)[i]);
            lemma_parse_escaped(s, pos + 2, t2);
            assert(seq![t[0]] + t2 =~= t);
        } else {
            assert(e =~= seq![t[0]]);
            assert(s[pos] == escape(t)[0]);
            assert(escape(t)[0] == e[0]);
            assert(s[pos] == t[0]);
            assert(t[0] != '"' && t[0] != '\\');
            assert(forall|i: int|
                0 <= i < escape(t2).len() ==> s[pos + 1 + i] == #[trigger] escape(t2)[i]);
            lemma_parse_escaped(s, pos + 1, t2);
            assert(seq![t[0]] + t2 =~= t);
        }
    }
}

/// Escapes a string for inclusion between quotes.
pub fn escape_x(t: &Vec<char>) -> (v: Vec<char>)
    ensures
        v@ == escape(t@),
{
    let mut v: Vec<char> = Vec::new();
    let mut i: usize = 0;
    while i < t.len()
        invariant
            i <= t@.len(),
            v@ == escape(t@.subrange(0, i as int)),
        decreases t@.len() - i,
    {
        let c = t[i];
        match c {
            '"' => {
                v.push('\\');
                v.push('"');
            },
            '\\' => {
                v.push('\\');
                v.push('\\');
            },
            '\n' => {
                v.push('\\');
                v.push('n');
            },
            '\r' => {
                v.push('\\');
                v.push('r');
            },
            '\t' => {
                v.push('\\');
                v.push('t');
            },
            _ => {
                v.push(c);
            },
        }
        proof {
            let pre = t@.subrange(0, i as int);
            let one = seq![t@[i as int]];
            assert(t@.subrange(0, i + 1) =~= pre + one);
            lemma_escape_concat(pre, one);
            assert(one[0] == t@[i as int]);
            assert(one.drop_first() =~= Seq::<char>::empty());
            assert(escape(one) == esc_char(one[0]) + escape(one.drop_first()));
            assert(escape(one) =~= esc_char(t@[i as int]));
            assert(v@ =~= escape(pre) + esc_char(t@[i as int]));
        }
        i += 1;
    }
    proof {
        assert(t@.subrange(0, t@.len() as int) =~= t@);
    }
    v
}

/// Reads an escaped string up to and including its closing quote.
pub fn parse_string_body_x(v: &Vec<char>, pos: usize) -> (r: Option<(Vec<char>, usize)>)
    requires
        pos <= v@.len(),
    ensures
        match r {
            Some((t, p)) => parse_string_body(v@, pos as int) == Some((t@, p as int)) && p
                <= v@.len(),
            None => parse_string_body(v@, pos as int) is None,
        },
{
    let mut out: Vec<char> = Vec::new();
    let mut p: usize = pos;
    proof {
        lemma_parse_string_body_end(v@, pos as int);
        match parse_string_body(v@, pos as int) {
            Some((t, e)) => {
                assert(Seq::<char>::empty() + t =~= t);
            },
            None => {},
        }
    }
    loop
        invariant
            pos <= p <= v@.len(),
            match parse_string_body(v@, p as int) {
                Some((t, e)) => parse_string_body(v@, pos as int) == Some((out@ + t, e)) && e
                    <= v@.len(),
                None => parse_string_body(v@, pos as int) is None,
            },
        decreases v@.len() - p,
    {
        proof {
            lemma_parse_string_body_end(v@, p as int);
        }
        if p >= v.len() {
            return None;
        }
        let c = v[p];
        if c == '"' {
            proof {
                assert(out@ + Seq::<char>::empty() =~= out@);
            }
            return Some((out, p + 1));
        }
        if c == '\\' {
            let nlen: usize = v.len();
            if p >= nlen - 1 {
                return None;
            }
            let e = v[p + 1];
            let dec: char = match e {
                '"' => '"',
                '\\' => '\\',
                'n' => '\n',
                'r' => '\r',
                't' => '\t',
                _ => {
                    return None;
                },
            };
            proof {
                let ghost old_out = out@;
                match parse_string_body(v@, p + 2) {
                    Some((t2, e2)) => {
                        assert(old_out + (seq![dec] + t2) =~= old_out.push(dec) + t2);
                    },
                    None => {},
                }
            }
            out.push(dec);
            p = p + 2;
        } else {
            proof {
                match parse_string_body(v@, p + 1) {
                    Some((t2, e2)) => {
                        assert(out@ + (seq![c] + t2) =~= out@.push(c) + t2);
                    },
                    None => {},
                }
            }
            out.push(c);
            p = p + 1;
        }
    }
}

// ---------------------------------------------------------------------------
// Tokens
// ---------------------------------------------------------------------------
/// The token sits verbatim at the position.
pub open spec fn match_at(s: Seq<char>, pos: int, tok: Seq<char>) -> bool {
    &&& 0 <= pos
    &&& pos + tok.len() <= s.len()
    &&& forall|i: int| 0 <= i < tok.len() ==> s[pos + i] == #[trigger] tok[i]
}

pub fn match_at_x(v: &Vec<char>, pos: usize, tok: &Vec<char>) -> (r: bool)
    ensures
        r == match_at(v@, pos as int, tok@),
{
    let n: usize = v.len();
    if pos > n || n - pos < tok.len() {
        return false;
    }
    let mut i: usize = 0;
    while i < tok.len()
        invariant
            n == v@.len(),
            pos + tok@.len() <= n,
            i <= tok@.len(),
            forall|j: int| 0 <= j < i ==> v@[pos + j] == #[trigger] tok@[j],
        decreases tok@.len() - i,
    {
        if v[pos + i] != tok[i] {
            return false;
        }
        i += 1;
    }
    true
}

// ---------------------------------------------------------------------------
// Day
// ---------------------------------------------------------------------------
pub open spec fn tok_weekday_open() -> Seq<char> {
    seq!['{', '"', 'W', 'e', 'e', 'k', 'd', 'a', 'y', '"', ':', '"']
}

pub open spec fn tok_date_open() -> Seq<char> {
    seq!['{', '"', 'D', 'a', 't', 'e', '"', ':', '"']
}

pub open spec fn tok_quote_brace() -> Seq<char> {
    seq!['"', '}']
}

/// Structured form of a day, preserving which variant it is.
pub open spec fn day_json(d: Day) -> Seq<char> {
    match d {
        Day::Weekday(w) => tok_weekday_open() + weekday_short_name(w) + tok_quote_brace(),
        Day::Date(dt) => tok_date_open() + iso_date_seq(dt) + tok_quote_brace(),
    }
}

pub open spec fn parse_day_json(s: Seq<char>, pos: int) -> Option<(Day, int)> {
    if match_at(s, pos, tok_weekday_open()) {
        let p = pos + 12;
        if match_at(s, p, seq!['M', 'o', 'n']) && match_at(s, p + 3, tok_quote_brace()) {
            Some((Day::Weekday(Weekday::Mon), p + 5))
        } else if match_at(s, p, seq!['T', 'u', 'e']) && match_at(s, p + 3, tok_quote_brace()) {
            Some((Day::Weekday(Weekday::Tue), p + 5))
        } else if match_at(s, p, seq!['W', 'e', 'd']) && match_at(s, p + 3, tok_quote_brace()) {
            Some((Day::Weekday(Weekday::Wed), p + 5))
        } else if match_at(s, p, seq!['T', 'h', 'u']) && match_at(s, p + 3, tok_quote_brace()) {
            Some((Day::Weekday(Weekday::Thu), p + 5))
        } else if match_at(s, p, seq!['F', 'r', 'i']) && match_at(s, p + 3, tok_quote_brace()) {
            Some((Day::Weekday(Weekday::Fri), p + 5))
        } else if match_at(s, p, seq!['S', 'a', 't']) && match_at(s, p + 3, tok_quote_brace()) {
            Some((Day::Weekday(Weekday::Sat), p + 5))
        } else if match_at(s, p, seq!['S', 'u', 'n']) && match_at(s, p + 3, tok_quote_brace()) {
            Some((Day::Weekday(Weekday::Sun), p + 5))
        } else {
            None
        }
    } else if match_at(s, pos, tok_date_open()) {
        let p = pos + 9;
        if p + 10 <= s.len() {
            match parse_iso_date(s.subrange(p, p + 10)) {
                Some(dt) => if match_at(s, p + 10, tok_quote_brace()) {
                    Some((Day::Date(dt), p + 12))
                } else {
                    None
                },
                None => None,
            }
        } else {
            None
        }
    } else {
        None
    }
}

pub fn parse_day_json_x(v: &Vec<char>, pos: usize) -> (r: Option<(Day, usize)>)
    requires
        pos <= v@.len(),
    ensures
        match r {
            Some((d, p)) => parse_day_json(v@, pos as int) == Some((d, p as int)) && p <= v@.len()
                && valid_day(d),
            None => parse_day_json(v@, pos as int) is None,
        },
{
    let nlen: usize = v.len();
    if match_at_x(v, pos, &vec!['{', '"', 'W', 'e', 'e', 'k', 'd', 'a', 'y', '"', ':', '"']) {
        let p = pos + 12;
        let close = vec!['"', '}'];
        if match_at_x(v, p, &vec!['M', 'o', 'n']) && match_at_x(v, p + 3, &close) {
            Some((Day::Weekday(Weekday::Mon), p + 5))
        } else if match_at_x(v, p, &vec!['T', 'u', 'e']) && match_at_x(v, p + 3, &close) {
            Some((Day::Weekday(Weekday::Tue), p + 5))
        } else if match_at_x(v, p, &vec!['W', 'e', 'd']) && match_at_x(v, p + 3, &close) {
            Some((Day::Weekday(Weekday::Wed), p + 5))
        } else if match_at_x(v, p, &vec!['T', 'h', 'u']) && match_at_x(v, p + 3, &close) {
            Some((Day::Weekday(Weekday::Thu), p + 5))
        } else if match_at_x(v, p, &vec!['F', 'r', 'i']) && match_at_x(v, p + 3, &close) {
            Some((Day::Weekday(Weekday::Fri), p + 5))
        } else if match_at_x(v, p, &vec!['S', 'a', 't']) && match_at_x(v, p + 3, &close) {
            Some((Day::Weekday(Weekday::Sat), p + 5))
        } else if match_at_x(v, p, &vec!['S', 'u', 'n']) && match_at_x(v, p + 3, &close) {
            Some((Day::Weekday(Weekday::Sun), p + 5))
        } else {
            None
        }
    } else if match_at_x(v, pos, &vec!['{', '"', 'D', 'a', 't', 'e', '"', ':', '"']) {
        let p = pos + 9;
        if nlen - p >= 10 {
            let window = copy_range(v, p, p + 10);
            match parse_iso_date_x(&window) {
                Some(dt) => {
                    if match_at_x(v, p + 10, &vec!['"', '}']) {
                        Some((Day::Date(dt), p + 12))
                    } else {
                        None
                    }
                },
                None => None,
            }
        } else {
            None
        }
    } else {
        None
    }
}

/// The structured form of a day parses back to exactly that day.
pub proof fn lemma_day_json_round(s: Seq<char>, pos: int, d: Day)
    requires
        valid_day(d),
        0 <= pos,
        pos + day_json(d).len() <= s.len(),
        forall|i: int| 0 <= i < day_json(d).len() ==> s[pos + i] == #[trigger] day_json(d)[i],
    ensures
        parse_day_json(s, pos) == Some((d, pos + day_json(d).len())),
{
    match d {
        Day::Weekday(w) => {
            let name = weekday_short_name(w);
            assert forall|i: int| 0 <= i < 12 implies s[pos + i] == #[trigger] tok_weekday_open()[i]
            by {
                assert(s[pos + i] == day_json(d)[i]);
            }
            assert(match_at(s, pos, tok_weekday_open()));
            let p = pos + 12;
            assert forall|i: int| 0 <= i < 3 implies s[p + i] == #[trigger] name[i] by {
                assert(s[pos + (12 + i)] == day_json(d)[12 + i]);
            }
            assert forall|i: int| 0 <= i < 2 implies s[p + 3 + i] == #[trigger] tok_quote_brace()[i]
            by {
                assert(s[pos + (15 + i)] == day_json(d)[15 + i]);
            }
            assert(match_at(s, p + 3, tok_quote_brace()));
            assert(s[p] == name[0] && s[p + 1] == name[1] && s[p + 2] == name[2]);
        },
        Day::Date(dt) => {
            assert forall|i: int| 0 <= i < 9 implies s[pos + i] == #[trigger] tok_date_open()[i] by {
                assert(s[pos + i] == day_json(d)[i]);
            }
            assert(match_at(s, pos, tok_date_open()));
            assert(s[pos + 2] == 'D');
            assert(!match_at(s, pos, tok_weekday_open())) by {
                if match_at(s, pos, tok_weekday_open()) {
                    assert(s[pos + 2] == tok_weekday_open()[2]);
                }
            }
            let p = pos + 9;
            assert forall|i: int| 0 <= i < 10 implies s[p + i] == #[trigger] iso_date_seq(dt)[i] by {
                assert(s[pos + (9 + i)] == day_json(d)[9 + i]);
            }
            assert(s.subrange(p, p + 10) =~= iso_date_seq(dt));
            lemma_iso_date_round_trip(dt);
            assert forall|i: int| 0 <= i < 2 implies s[p + 10 + i] == #[trigger] tok_quote_brace()[i]
            by {
                assert(s[pos + (19 + i)] == day_json(d)[19 + i]);
            }
            assert(match_at(s, p + 10, tok_quote_brace()));
        },
    }
}

// ---------------------------------------------------------------------------
// Meal
// ---------------------------------------------------------------------------
pub open spec fn tok_meal_open() -> Seq<char> {
    seq!['{', '"', 'm', 'e', 'a', 'l', '_', 't', 'y', 'p', 'e', '"', ':', '"']
}

pub open spec fn tok_after_type() -> Seq<char> {
    seq!['"', ',', '"', 'd', 'a', 'y', '"', ':']
}

pub open spec fn tok_cook() -> Seq<char> {
    seq![',', '"', 'c', 'o', 'o', 'k', '"', ':', '"']
}

pub open spec fn tok_desc() -> Seq<char> {
    seq![',', '"', 'd', 'e', 's', 'c', 'r', 'i', 'p', 't', 'i', 'o', 'n', '"', ':', '"']
}

/// Structured form of one meal entry.
pub open spec fn meal_json(m: MealV) -> Seq<char> {
    tok_meal_open() + meal_type_name(m.meal_type) + tok_after_type() + day_json(m.day) + tok_cook()
        + escape(m.cook) + seq!['"'] + tok_desc() + escape(m.description) + seq!['"', '}']
}

pub open spec fn parse_meal(s: Seq<char>, pos: int) -> Option<(MealV, int)> {
    if !match_at(s, pos, tok_meal_open()) {
        None
    } else {
        let p1 = pos + 14;
        let tm: Option<(MealType, int)> = if match_at(s, p1, meal_type_name(MealType::Breakfast)) {
            Some((MealType::Breakfast, p1 + 9))
        } else if match_at(s, p1, meal_type_name(MealType::Lunch)) {
            Some((MealType::Lunch, p1 + 5))
        } else if match_at(s, p1, meal_type_name(MealType::Dinner)) {
            Some((MealType::Dinner, p1 + 6))
        } else if match_at(s, p1, meal_type_name(MealType::Snack)) {
            Some((MealType::Snack, p1 + 5))
        } else {
            None
        };
        match tm {
            None => None,
            Some((t, p2)) => {
                if !match_at(s, p2, tok_after_type()) {
                    None
                } else {
                    match parse_day_json(s, p2 + 8) {
                        None => None,
                        Some((d, p4)) => {
                            if !match_at(s, p4, tok_cook()) {
                                None
                            } else {
                                match parse_string_body(s, p4 + 9) {
                                    None => None,
                                    Some((cook, p6)) => {
                                        if !match_at(s, p6, tok_desc()) {
                                            None
                                        } else {
                                            match parse_string_body(s, p6 + 16) {
                                                None => None,
                                                Some((desc, p8)) => {
                                                    if p8 < s.len() && s[p8] == '}' {
                                                        Some(
                                                            (
                                                                MealV {
                                                                    meal_type: t,
                                                                    day: d,
                                                                    cook: cook,
                                                                    description: desc,
                                                                },
                                                                p8 + 1,
                                                            ),
                                                        )
                                                    } else {
                                                        None
                                                    }
                                                },
                                            }
                                        }
                                    },
                                }
                            }
                        },
                    }
                }
            },
        }
    }
}

pub fn parse_meal_x(v: &Vec<char>, pos: usize) -> (r: Option<(Meal, usize)>)
    requires
        pos <= v@.len(),
    ensures
        match r {
            Some((m, p)) => parse_meal(v@, pos as int) == Some((m@, p as int)) && pos < p
                <= v@.len() && valid_day(m@.day),
            None => parse_meal(v@, pos as int) is None,
        },
{
    let nlen: usize = v.len();
    if !match_at_x(v, pos, &vec![
        '{', '"', 'm', 'e', 'a', 'l', '_', 't', 'y', 'p', 'e', '"', ':', '"',
    ]) {
        return None;
    }
    let p1 = pos + 14;
    let t: MealType;
    let p2: usize;
    if match_at_x(v, p1, &meal_type_name_chars(&MealType::Breakfast)) {
        t = MealType::Breakfast;
        p2 = p1 + 9;
    } else if match_at_x(v, p1, &meal_type_name_chars(&MealType::Lunch)) {
        t = MealType::Lunch;
        p2 = p1 + 5;
    } else if match_at_x(v, p1, &meal_type_name_chars(&MealType::Dinner)) {
        t = MealType::Dinner;
        p2 = p1 + 6;
    } else if match_at_x(v, p1, &meal_type_name_chars(&MealType::Snack)) {
        t = MealType::Snack;
        p2 = p1 + 5;
    } else {
        return None;
    }
    if !match_at_x(v, p2, &vec!['"', ',', '"', 'd', 'a', 'y', '"', ':']) {
        return None;
    }
    let (d, p4) = match parse_day_json_x(v, p2 + 8) {
        Some(x) => x,
        None => {
            return None;
        },
    };
    if !match_at_x(v, p4, &vec![',', '"', 'c', 'o', 'o', 'k', '"', ':', '"']) {
        return None;
    }
    let (cook, p6) = match parse_string_body_x(v, p4 + 9) {
        Some(x) => x,
        None => {
            return None;
        },
    };
    if !match_at_x(v, p6, &vec![
        ',', '"', 'd', 'e', 's', 'c', 'r', 'i', 'p', 't', 'i', 'o', 'n', '"', ':', '"',
    ]) {
        return None;
    }
    let (desc, p8) = match parse_string_body_x(v, p6 + 16) {
        Some(x) => x,
        None => {
            return None;
        },
    };
    proof {
        lemma_parse_string_body_end(v@, p4 + 9);
        lemma_parse_string_body_end(v@, p6 + 16);
    }
    if p8 < nlen && v[p8] == '}' {
        let m = Meal {
            meal_type: t,
            day: d,
            cook: crate::text::chars_to_string(&cook),
            description: crate::text::chars_to_string(&desc),
        };
        Some((m, p8 + 1))
    } else {
        None
    }
}

/// The structured form of a meal parses back to exactly that meal.
#[verifier::rlimit(80)]
pub proof fn lemma_meal_json_round(s: Seq<char>, pos: int, m: MealV)
    requires
        valid_day(m.day),
        0 <= pos,
        pos + meal_json(m).len() <= s.len(),
        forall|i: int| 0 <= i < meal_json(m).len() ==> s[pos + i] == #[trigger] meal_json(m)[i],
    ensures
        parse_meal(s, pos) == Some((m, pos + meal_json(m).len())),
{
    let mj = meal_json(m);
    let name = meal_type_name(m.meal_type);
    let dj = day_json(m.day);
    let ec = escape(m.cook);
    let ed = escape(m.description);
    let o1 = 14int;
    let o2 = o1 + name.len();
    let o3 = o2 + 8;
    let o4 = o3 + dj.len();
    let o5 = o4 + 9;
    let o6 = o5 + ec.len() + 1;
    let o7 = o6 + 16;
    let o8 = o7 + ed.len() + 1;
    assert(mj.len() == o8 + 1);
    assert forall|i: int| 0 <= i < 14 implies s[pos + i] == #[trigger] tok_meal_open()[i] by {
        assert(s[pos + i] == mj[i]);
    }
    assert(match_at(s, pos, tok_meal_open()));
    let p1 = pos + 14;
    assert forall|i: int| 0 <= i < name.len() implies s[p1 + i] == #[trigger] name[i] by {
        assert(s[pos + (o1 + i)] == mj[o1 + i]);
    }
    assert(match_at(s, p1, name));
    assert(s[p1] == name[0]);
    let p2 = pos + o2;
    assert forall|i: int| 0 <= i < 8 implies s[p2 + i] == #[trigger] tok_after_type()[i] by {
        assert(s[pos + (o2 + i)] == mj[o2 + i]);
    }
    assert(match_at(s, p2, tok_after_type()));
    let p3 = pos + o3;
    assert forall|i: int| 0 <= i < dj.len() implies s[p3 + i] == #[trigger] dj[i] by {
        assert(s[pos + (o3 + i)] == mj[o3 + i]);
    }
    lemma_day_json_round(s, p3, m.day);
    let p4 = pos + o4;
    assert forall|i: int| 0 <= i < 9 implies s[p4 + i] == #[trigger] tok_cook()[i] by {
        assert(s[pos + (o4 + i)] == mj[o4 + i]);
    }
    assert(match_at(s, p4, tok_cook()));
    let p5 = pos + o4 + 9;
    assert forall|i: int| 0 <= i < ec.len() implies s[p5 + i] == #[trigger] ec[i] by {
        assert(s[pos + (o4 + 9 + i)] == mj[o4 + 9 + i]);
    }
    assert(s[p5 + ec.len()] == '"') by {
        assert(s[pos + (o4 + 9 + ec.len())] == mj[o4 + 9 + ec.len()]);
    }
    lemma_parse_escaped(s, p5, m.cook);
    let p6 = pos + o6;
    assert forall|i: int| 0 <= i < 16 implies s[p6 + i] == #[trigger] tok_desc()[i] by {
        assert(s[pos + (o6 + i)] == mj[o6 + i]);
    }
    assert(match_at(s, p6, tok_desc()));
    let p7 = pos + o7;
    assert forall|i: int| 0 <= i < ed.len() implies s[p7 + i] == #[trigger] ed[i] by {
        assert(s[pos + (o7 + i)] == mj[o7 + i]);
    }
    assert(s[p7 + ed.len()] == '"') by {
        assert(s[pos + (o7 + ed.len())] == mj[o7 + ed.len()]);
    }
    lemma_parse_escaped(s, p7, m.description);
    let p8 = pos + o8;
    assert(s[p8] == '}') by {
        assert(s[pos + o8] == mj[o8]);
    }
    match m.meal_type {
        MealType::Breakfast => {
        },
        MealType::Lunch => {
            assert(s[p1] == 'L');
            assert(!match_at(s, p1, meal_type_name(MealType::Breakfast))) by {
                if match_at(s, p1, meal_type_name(MealType::Breakfast)) {
                    assert(s[p1] == meal_type_name(MealType::Breakfast)[0]);
                }
            }
        },
        MealType::Dinner => {
            assert(s[p1] == 'D');
            assert(!match_at(s, p1, meal_type_name(MealType::Breakfast))) by {
                if match_at(s, p1, meal_type_name(MealType::Breakfast)) {
                    assert(s[p1] == meal_type_name(MealType::Breakfast)[0]);
                }
            }
            assert(!match_at(s, p1, meal_type_name(MealType::Lunch))) by {
                if match_at(s, p1, meal_type_name(MealType::Lunch)) {
                    assert(s[p1] == meal_type_name(MealType::Lunch)[0]);
                }
            }
        },
        MealType::Snack => {
            assert(s[p1] == 'S');
            assert(!match_at(s, p1, meal_type_name(MealType::Breakfast))) by {
                if match_at(s, p1, meal_type_name(MealType::Breakfast)) {
                    assert(s[p1] == meal_type_name(MealType::Breakfast)[0]);
                }
            }
            assert(!match_at(s, p1, meal_type_name(MealType::Lunch))) by {
                if match_at(s, p1, meal_type_name(MealType::Lunch)) {
                    assert(s[p1] == meal_type_name(MealType::Lunch)[0]);
                }
            }
            assert(!match_at(s, p1, meal_type_name(MealType::Dinner))) by {
                if match_at(s, p1, meal_type_name(MealType::Dinner)) {
                    assert(s[p1] == meal_type_name(MealType::Dinner)[0]);
                }
            }
        },
    }
}

// ---------------------------------------------------------------------------
// Meal list
// ---------------------------------------------------------------------------
/// Comma-prefixed forms of the remaining meals.
pub open spec fn meals_tail(ms: Seq<MealV>) -> Seq<char>
    decreases ms.len(),
{
    if ms.len() == 0 {
        Seq::empty()
    } else {
        seq![','] + meal_json(ms[0]) + meals_tail(ms.drop_first())
    }
}

/// Comma-separated forms of all meals.
pub open spec fn meals_json(ms: Seq<MealV>) -> Seq<char> {
    if ms.len() == 0 {
        Seq::empty()
    } else {
        meal_json(ms[0]) + meals_tail(ms.drop_first())
    }
}

proof fn lemma_meals_tail_push(ms: Seq<MealV>, m: MealV)
    ensures
        meals_tail(ms.push(m)) == meals_tail(ms) + (seq![','] + meal_json(m)),
    decreases ms.len(),
{
    if ms.len() == 0 {
        assert(ms.push(m).drop_first() =~= Seq::<MealV>::empty());
        assert(ms.push(m)[0] == m);
        assert(meals_tail(Seq::<MealV>::empty()) == Seq::<char>::empty());
        assert(meals_tail(ms) == Seq::<char>::empty());
        assert(meals_tail(ms.push(m)) =~= meals_tail(ms) + (seq![','] + meal_json(m)));
    } else {
        assert(ms.push(m)[0] == ms[0]);
        assert(ms.push(m).drop_first() =~= ms.drop_first().push(m));
        lemma_meals_tail_push(ms.drop_first(), m);
        assert(meals_tail(ms.push(m)) =~= meals_tail(ms) + (seq![','] + meal_json(m)));
    }
}

/// Appending one meal appends its form, comma-separated.
pub proof fn lemma_meals_json_push(ms: Seq<MealV>, m: MealV)
    ensures
        meals_json(ms.push(m)) == if ms.len() == 0 {
            meal_json(m)
        } else {
            meals_json(ms) + seq![','] + meal_json(m)
        },
{
    if ms.len() == 0 {
        assert(ms.push(m)[0] == m);
        assert(ms.push(m).drop_first() =~= Seq::<MealV>::empty());
        assert(meals_tail(Seq::<MealV>::empty()) == Seq::<char>::empty());
        assert(meals_json(ms.push(m)) =~= meal_json(m));
    } else {
        assert(ms.push(m)[0] == ms[0]);
        assert(ms.push(m).drop_first() =~= ms.drop_first().push(m));
        lemma_meals_tail_push(ms.drop_first(), m);
        assert(meals_json(ms.push(m)) =~= meals_json(ms) + seq![','] + meal_json(m));
    }
}

proof fn lemma_meals_tail_as_json(ms: Seq<MealV>)
    requires
        ms.len() >= 1,
    ensures
        meals_tail(ms) == seq![','] + meals_json(ms),
{
    assert(meals_tail(ms) =~= seq![','] + meals_json(ms));
}

pub open spec fn parse_meals(s: Seq<char>, pos: int) -> Option<(Seq<MealV>, int)>
    decreases s.len() - pos,
{
    match parse_meal(s, pos) {
        Some((m, p)) => {
            if p <= pos || p > s.len() {
                None
            } else if p < s.len() && s[p] == ',' {
                match parse_meals(s, p + 1) {
                    Some((ms, e)) => Some((seq![m] + ms, e)),
                    None => None,
                }
            } else {
                Some((seq![m], p))
            }
        },
        None => None,
    }
}

proof fn lemma_parse_meals_end(s: Seq<char>, pos: int)
    ensures
        match parse_meals(s, pos) {
            Some((ms, e)) => pos < e <= s.len() && ms.len() >= 1,
            None => true,
        },
    decreases s.len() - pos,
{
    match parse_meal(s, pos) {
        Some((m, p)) => {
            if p <= pos || p > s.len() {
            } else if p < s.len() && s[p] == ',' {
                lemma_parse_meals_end(s, p + 1);
            }
        },
        None => {},
    }
}

/// A non-empty meal list followed by anything but a comma parses back to
/// exactly those meals.
pub proof fn lemma_meals_json_round(s: Seq<char>, pos: int, ms: Seq<MealV>)
    requires
        ms.len() >= 1,
        forall|k: int| 0 <= k < ms.len() ==> valid_day(#[trigger] ms[k].day),
        0 <= pos,
        pos + meals_json(ms).len() < s.len(),
        forall|i: int| 0 <= i < meals_json(ms).len() ==> s[pos + i] == #[trigger] meals_json(ms)[i],
        s[pos + meals_json(ms).len()] != ',',
    ensures
        parse_meals(s, pos) == Some((ms, pos + meals_json(ms).len())),
    decreases ms.len(),
{
    let mj = meals_json(ms);
    let m0 = meal_json(ms[0]);
    if ms.len() == 1 {
        assert(ms.drop_first() =~= Seq::<MealV>::empty());
        assert(mj =~= m0);
        assert forall|i: int| 0 <= i < m0.len() implies s[pos + i] == #[trigger] m0[i] by {
            assert(s[pos + i] == mj[i]);
        }
        lemma_meal_json_round(s, pos, ms[0]);
        let p = pos + m0.len();
        assert(s[p] != ',');
        assert(seq![ms[0]] =~= ms);
    } else {
        let rest = ms.drop_first();
        lemma_meals_tail_as_json(rest);
        assert(mj == m0 + (seq![','] + meals_json(rest)));
        assert forall|i: int| 0 <= i < m0.len() implies s[pos + i] == #[trigger] m0[i] by {
            assert(s[pos + i] == mj[i]);
        }
        lemma_meal_json_round(s, pos, ms[0]);
        let p = pos + m0.len();
        assert(s[p] == ',') by {
            assert(s[pos + m0.len()] == mj[m0.len() as int]);
        }
        let rj = meals_json(rest);
        assert forall|i: int| 0 <= i < rj.len() implies s[p + 1 + i] == #[trigger] rj[i] by {
            assert(s[pos + (m0.len() + 1 + i)] == mj[m0.len() + 1 + i]);
        }
        assert(forall|k: int| 0 <= k < rest.len() ==> #[trigger] rest[k] == ms[k + 1]);
        lemma_meals_json_round(s, p + 1, rest);
        assert(seq![ms[0]] + rest =~= ms);
    }
}

pub fn parse_meals_x(v: &Vec<char>, pos: usize) -> (r: Option<(Vec<Meal>, usize)>)
    requires
        pos <= v@.len(),
    ensures
        match r {
            Some((ms, p)) => {
                &&& parse_meals(v@, pos as int) == Some((ms@.map_values(|m: Meal| m@), p as int))
                &&& p <= v@.len()
                &&& forall|k: int| 0 <= k < ms@.len() ==> valid_day(#[trigger] ms@[k]@.day)
            },
            None => parse_meals(v@, pos as int) is None,
        },
{
    let mut out: Vec<Meal> = Vec::new();
    let mut p: usize = pos;
    loop
        invariant
            pos <= p <= v@.len(),
            forall|k: int| 0 <= k < out@.len() ==> valid_day(#[trigger] out@[k]@.day),
            match parse_meals(v@, p as int) {
                Some((ms, e)) => parse_meals(v@, pos as int) == Some(
                    (out@.map_values(|m: Meal| m@) + ms, e),
                ),
                None => parse_meals(v@, pos as int) is None,
            },
        decreases v@.len() - p,
    {
        let (m, np) = match parse_meal_x(v, p) {
            Some(x) => x,
            None => {
                return None;
            },
        };
        proof {
            lemma_parse_meals_end(v@, np as int);
        }
        let ghost old_out = out@;
        out.push(m);
        if np < v.len() && v[np] == ',' {
            proof {
                match parse_meals(v@, np + 1) {
                    Some((ms2, e2)) => {
                        assert(old_out.map_values(|mm: Meal| mm@) + (seq![m@] + ms2)
                            =~= out@.map_values(|mm: Meal| mm@) + ms2);
                    },
                    None => {},
                }
            }
            p = np + 1;
        } else {
            proof {
                assert(parse_meals(v@, p as int) == Some((seq![m@], np as int)));
                assert(old_out.map_values(|mm: Meal| mm@) + seq![m@] =~= out@.map_values(
                    |mm: Meal| mm@,
                ));
            }
            return Some((out, np));
        }
    }
}

// ---------------------------------------------------------------------------
// Plan
// ---------------------------------------------------------------------------
pub open spec fn tok_plan_open() -> Seq<char> {
    seq!['{', '"', 'm', 'e', 'a', 'l', 's', '"', ':', '[']
}

pub open spec fn tok_week() -> Seq<char> {
    seq![
        ']', ',', '"', 'w', 'e', 'e', 'k', '_', 's', 't', 'a', 'r', 't', '_', 'd', 'a', 't', 'e',
        '"', ':', '"',
    ]
}

pub open spec fn tok_lastmod() -> Seq<char> {
    seq!['"', ',', '"', 'l', 'a', 's', 't', '_', 'm', 'o', 'd', 'i', 'f', 'i', 'e', 'd', '"', ':']
}

/// The canonical structured form of a whole plan.
#[verifier::opaque]
pub open spec fn plan_json(p: PlanV) -> Seq<char> {
    tok_plan_open() + meals_json(p.meals) + tok_week() + iso_date_seq(p.week_start_date)
        + tok_lastmod() + int_digits(p.last_modified) + seq!['}']
}

/// The stretch of a structured document after the meal list: the week-start
/// date, the timestamp, and the closing brace.
pub open spec fn parse_plan_tail(s: Seq<char>, ms: Seq<MealV>, p2: int) -> Option<PlanV> {
    if !match_at(s, p2, tok_week()) {
        None
    } else {
        let p3 = p2 + 21;
        if p3 + 10 <= s.len() {
            match parse_iso_date(s.subrange(p3, p3 + 10)) {
                None => None,
                Some(wd) => {
                    let p4 = p3 + 10;
                    if !match_at(s, p4, tok_lastmod()) {
                        None
                    } else {
                        match parse_int_at(s, p4 + 18) {
                            None => None,
                            Some((lm, p6)) => {
                                if p6 < s.len() && p6 + 1 == s.len() && s[p6] == '}' {
                                    Some(PlanV { meals: ms, week_start_date: wd, last_modified: lm })
                                } else {
                                    None
                                }
                            },
                        }
                    }
                },
            }
        } else {
            None
        }
    }
}

/// Strict parse of a whole structured document.
pub open spec fn parse_plan(s: Seq<char>) -> Option<PlanV> {
    if !match_at(s, 0, tok_plan_open()) {
        None
    } else {
        let mr: Option<(Seq<MealV>, int)> = if 10 < s.len() && s[10] == ']' {
            Some((Seq::empty(), 10))
        } else {
            parse_meals(s, 10)
        };
        match mr {
            None => None,
            Some((ms, p2)) => parse_plan_tail(s, ms, p2),
        }
    }
}

proof fn lemma_plan_layout_head(p: PlanV)
    ensures
        plan_json(p).len() == 60 + meals_json(p.meals).len() + int_digits(p.last_modified).len(),
        match_at(plan_json(p), 0, tok_plan_open()),
        forall|i: int|
            0 <= i < meals_json(p.meals).len() ==> plan_json(p)[10 + i] == #[trigger] meals_json(
                p.meals,
            )[i],
        match_at(plan_json(p), 10 + meals_json(p.meals).len() as int, tok_week()),
{
    reveal(plan_json);
    let s = plan_json(p);
    let mj = meals_json(p.meals);
    let o2 = 10 + mj.len() as int;
    assert forall|i: int| 0 <= i < 10 implies s[i] == #[trigger] tok_plan_open()[i] by {}
    assert forall|i: int| 0 <= i < mj.len() implies s[10 + i] == #[trigger] mj[i] by {}
    assert forall|i: int| 0 <= i < 21 implies s[o2 + i] == #[trigger] tok_week()[i] by {}
}

proof fn lemma_plan_layout_date(p: PlanV)
    ensures
        plan_json(p).subrange(
            31 + meals_json(p.meals).len() as int,
            41 + meals_json(p.meals).len() as int,
        ) == iso_date_seq(p.week_start_date),
        match_at(plan_json(p), 41 + meals_json(p.meals).len() as int, tok_lastmod()),
{
    reveal(plan_json);
    let s = plan_json(p);
    let mj = meals_json(p.meals);
    let iso = iso_date_seq(p.week_start_date);
    let o3 = 31 + mj.len() as int;
    let o4 = o3 + 10;
    assert forall|i: int| 0 <= i < 10 implies s[o3 + i] == #[trigger] iso[i] by {}
    assert(s.subrange(o3, o3 + 10) =~= iso);
    assert forall|i: int| 0 <= i < 18 implies s[o4 + i] == #[trigger] tok_lastmod()[i] by {}
}

proof fn lemma_plan_layout_tail(p: PlanV)
    ensures
        forall|i: int|
            0 <= i < int_digits(p.last_modified).len() ==> plan_json(p)[59 + meals_json(
                p.meals,
            ).len() as int + i] == #[trigger] int_digits(p.last_modified)[i],
        plan_json(p)[59 + meals_json(p.meals).len() as int + int_digits(p.last_modified).len() as int]
            == '}',
{
    reveal(plan_json);
    let s = plan_json(p);
    let mj = meals_json(p.meals);
    let lmd = int_digits(p.last_modified);
    let o5 = 59 + mj.len() as int;
    assert forall|i: int| 0 <= i < lmd.len() implies s[o5 + i] == #[trigger] lmd[i] by {}
    assert(s[o5 + lmd.len() as int] == '}');
}

/// Assembles the tail parse from already-established component facts.
proof fn lemma_parse_plan_tail_any(s: Seq<char>, ms: Seq<MealV>, p2: int, wd: Date, lm: int)
    requires
        match_at(s, p2, tok_week()),
        parse_iso_date(s.subrange(p2 + 21, p2 + 31)) == Some(wd),
        match_at(s, p2 + 31, tok_lastmod()),
        parse_int_at(s, p2 + 49) == Some((lm, s.len() - 1)),
        s.len() >= 1,
        s[s.len() - 1] == '}',
    ensures
        parse_plan_tail(s, ms, p2) == Some(
            PlanV { meals: ms, week_start_date: wd, last_modified: lm },
        ),
{
}

proof fn lemma_plan_tail_date(p: PlanV)
    requires
        plan_wf(p),
    ensures
        parse_iso_date(
            plan_json(p).subrange(
                31 + meals_json(p.meals).len() as int,
                41 + meals_json(p.meals).len() as int,
            ),
        ) == Some(p.week_start_date),
{
    lemma_plan_layout_date(p);
    lemma_iso_date_round_trip(p.week_start_date);
}

#[verifier::spinoff_prover]
proof fn lemma_plan_tail_int(p: PlanV)
    requires
        plan_wf(p),
    ensures
        parse_int_at(plan_json(p), 59 + meals_json(p.meals).len() as int) == Some(
            (p.last_modified, plan_json(p).len() - 1),
        ),
{
    let s = plan_json(p);
    let mj = meals_json(p.meals);
    let lmd = int_digits(p.last_modified);
    let o5 = 59 + mj.len() as int;
    lemma_plan_layout_head(p);
    lemma_plan_layout_tail(p);
    assert(s.len() == o5 + lmd.len() + 1);
    assert(s[o5 + lmd.len() as int] == '}');
    assert(!is_digit('}'));
    lemma_parse_int_digits(s, o5, p.last_modified);
}

#[verifier::spinoff_prover]
proof fn lemma_plan_tail_round(p: PlanV)
    requires
        plan_wf(p),
    ensures
        parse_plan_tail(plan_json(p), p.meals, 10 + meals_json(p.meals).len() as int) == Some(p),
{
    let s = plan_json(p);
    let mj = meals_json(p.meals);
    let o2 = 10 + mj.len() as int;
    lemma_plan_layout_head(p);
    lemma_plan_layout_date(p);
    lemma_plan_layout_tail(p);
    lemma_plan_tail_date(p);
    lemma_plan_tail_int(p);
    assert(s.len() == 60 + mj.len() + int_digits(p.last_modified).len());
    assert(s[s.len() - 1] == '}');
    lemma_parse_plan_tail_any(s, p.meals, o2, p.week_start_date, p.last_modified);
}

/// Structured round-trip: parsing the canonical form of a well-formed plan
/// restores it exactly, including each day's variant identity and the
/// timestamp.
/// Assembles the whole parse from already-established component facts.
proof fn lemma_parse_plan_any(s: Seq<char>, ms: Seq<MealV>, p2: int, r: Option<PlanV>)
    requires
        match_at(s, 0, tok_plan_open()),
        10 < s.len(),
        if ms.len() == 0 {
            s[10] == ']' && p2 == 10
        } else {
            s[10] != ']' && parse_meals(s, 10) == Some((ms, p2))
        },
        parse_plan_tail(s, ms, p2) == r,
    ensures
        parse_plan(s) == r,
{
    if ms.len() == 0 {
        assert(ms =~= Seq::<MealV>::empty());
    }
}

#[verifier::spinoff_prover]
#[verifier::rlimit(100)]
proof fn lemma_plan_meals_parse(p: PlanV)
    requires
        plan_wf(p),
        p.meals.len() > 0,
    ensures
        plan_json(p)[10] != ']',
        parse_meals(plan_json(p), 10) == Some((p.meals, 10 + meals_json(p.meals).len() as int)),
{
    let s = plan_json(p);
    let mj = meals_json(p.meals);
    lemma_plan_layout_head(p);
    assert(s[10] == mj[0]);
    assert(mj[0] == meal_json(p.meals[0])[0]);
    assert(meal_json(p.meals[0])[0] == tok_meal_open()[0]);
    assert(s[10 + mj.len() as int] == tok_week()[0]);
    assert(s[10 + mj.len() as int] != ',');
    lemma_meals_json_round(s, 10, p.meals);
}

/// Structured round-trip: parsing the canonical form of a well-formed plan
/// restores it exactly, including each day's variant identity and the
/// timestamp.
#[verifier::spinoff_prover]
#[verifier::rlimit(100)]
pub proof fn lemma_plan_round_trip(p: PlanV)
    requires
        plan_wf(p),
    ensures
        parse_plan(plan_json(p)) == Some(p),
{
    let s = plan_json(p);
    let mj = meals_json(p.meals);
    let o2 = 10 + mj.len() as int;
    lemma_plan_layout_head(p);
    lemma_plan_layout_tail(p);
    lemma_plan_tail_round(p);
    assert(s.len() == 60 + mj.len() + int_digits(p.last_modified).len());
    if p.meals.len() == 0 {
        assert(mj.len() == 0);
        assert(s[10] == tok_week()[0]);
        lemma_parse_plan_any(s, p.meals, 10, Some(p));
    } else {
        lemma_plan_meals_parse(p);
        lemma_parse_plan_any(s, p.meals, o2, Some(p));
    }
}

/// Writes a day in its structured form.
pub fn day_json_chars(d: &Day) -> (v: Vec<char>)
    requires
        valid_day(*d),
    ensures
        v@ == day_json(*d),
{
    match d {
        Day::Weekday(w) => {
            let mut v: Vec<char> = vec!['{', '"', 'W', 'e', 'e', 'k', 'd', 'a', 'y', '"', ':', '"'];
            let mut n = weekday_short_name_chars(w);
            v.append(&mut n);
            v.push('"');
            v.push('}');
            proof {
                assert(v@ =~= day_json(*d));
            }
            v
        },
        Day::Date(dt) => {
            let mut v: Vec<char> = vec!['{', '"', 'D', 'a', 't', 'e', '"', ':', '"'];
            let mut n = iso_date_chars(dt);
            v.append(&mut n);
            v.push('"');
            v.push('}');
            proof {
                assert(v@ =~= day_json(*d));
            }
            v
        },
    }
}

/// Writes one meal in its structured form.
pub fn meal_json_chars(m: &Meal) -> (v: Vec<char>)
    requires
        valid_day(m@.day),
    ensures
        v@ == meal_json(m@),
{
    let mut v: Vec<char> = vec![
        '{', '"', 'm', 'e', 'a', 'l', '_', 't', 'y', 'p', 'e', '"', ':', '"',
    ];
    let mut name = meal_type_name_chars(&m.meal_type);
    v.append(&mut name);
    let mut t2: Vec<char> = vec!['"', ',', '"', 'd', 'a', 'y', '"', ':'];
    v.append(&mut t2);
    let mut dj = day_json_chars(&m.day);
    v.append(&mut dj);
    let mut t3: Vec<char> = vec![',', '"', 'c', 'o', 'o', 'k', '"', ':', '"'];
    v.append(&mut t3);
    let cookc = str_chars(m.cook.as_str());
    let mut ec = escape_x(&cookc);
    v.append(&mut ec);
    v.push('"');
    let mut t4: Vec<char> = vec![
        ',', '"', 'd', 'e', 's', 'c', 'r', 'i', 'p', 't', 'i', 'o', 'n', '"', ':', '"',
    ];
    v.append(&mut t4);
    let descc = str_chars(m.description.as_str());
    let mut ed = escape_x(&descc);
    v.append(&mut ed);
    v.push('"');
    v.push('}');
    proof {
        assert(v@ =~= meal_json(m@));
    }
    v
}

impl MealPlan {
    /// The canonical structured text of this plan.
    pub fn to_json(&self) -> (r: String)
        requires
            plan_wf(self@),
        ensures
            r@ == plan_json(self@),
    {
        let mut v: Vec<char> = vec!['{', '"', 'm', 'e', 'a', 'l', 's', '"', ':', '['];
        let mut i: usize = 0;
        while i < self.meals.len()
            invariant
                i <= self.meals@.len(),
                plan_wf(self@),
                v@ == tok_plan_open() + meals_json(self@.meals.subrange(0, i as int)),
            decreases self.meals@.len() - i,
        {
            if i > 0 {
                v.push(',');
            }
            let mut mc = meal_json_chars(&self.meals[i]);
            v.append(&mut mc);
            proof {
                let pre = self@.meals.subrange(0, i as int);
                assert(self@.meals.subrange(0, i + 1) =~= pre.push(self@.meals[i as int]));
                lemma_meals_json_push(pre, self@.meals[i as int]);
                assert(v@ =~= tok_plan_open() + meals_json(self@.meals.subrange(0, i + 1)));
            }
            i += 1;
        }
        proof {
            assert(self@.meals.subrange(0, self@.meals.len() as int) =~= self@.meals);
        }
        let mut tw: Vec<char> = vec![
            ']', ',', '"', 'w', 'e', 'e', 'k', '_', 's', 't', 'a', 'r', 't', '_', 'd', 'a', 't',
            'e', '"', ':', '"',
        ];
        v.append(&mut tw);
        let mut iso = iso_date_chars(&self.week_start_date);
        v.append(&mut iso);
        let mut tl: Vec<char> = vec![
            '"', ',', '"', 'l', 'a', 's', 't', '_', 'm', 'o', 'd', 'i', 'f', 'i', 'e', 'd', '"',
            ':',
        ];
        v.append(&mut tl);
        let mut lm = i64_digits_x(self.last_modified);
        v.append(&mut lm);
        v.push('}');
        proof {
            reveal(plan_json);
            assert(v@ =~= plan_json(self@));
        }
        chars_to_string(&v)
    }

    /// Reads a plan back from its structured text. Only canonical documents
    /// are accepted; anything else is a storage read error.
    pub fn from_json(s: &str) -> (r: Result<MealPlan, PlanError>)
        ensures
            match r {
                Ok(p) => parse_plan(s@) == Some(p@) && plan_wf(p@),
                Err(e) => parse_plan(s@) is None && e == PlanError::StorageReadError,
            },
    {
        let v = str_chars(s);
        let nlen: usize = v.len();
        if !match_at_x(&v, 0, &vec!['{', '"', 'm', 'e', 'a', 'l', 's', '"', ':', '[']) {
            return Err(PlanError::StorageReadError);
        }
        let empty_list: bool = 10 < nlen && v[10] == ']';
        let (meals, p2): (Vec<Meal>, usize) = if empty_list {
            (Vec::new(), 10)
        } else {
            match parse_meals_x(&v, 10) {
                Some(x) => x,
                None => {
                    return Err(PlanError::StorageReadError);
                },
            }
        };
        if !match_at_x(&v, p2, &vec![
            ']', ',', '"', 'w', 'e', 'e', 'k', '_', 's', 't', 'a', 'r', 't', '_', 'd', 'a', 't',
            'e', '"', ':', '"',
        ]) {
            return Err(PlanError::StorageReadError);
        }
        let p3 = p2 + 21;
        if nlen - p3 < 10 {
            return Err(PlanError::StorageReadError);
        }
        let window = copy_range(&v, p3, p3 + 10);
        let wd = match parse_iso_date_x(&window) {
            Some(d) => d,
            None => {
                return Err(PlanError::StorageReadError);
            },
        };
        let p4 = p3 + 10;
        if !match_at_x(&v, p4, &vec![
            '"', ',', '"', 'l', 'a', 's', 't', '_', 'm', 'o', 'd', 'i', 'f', 'i', 'e', 'd', '"',
            ':',
        ]) {
            return Err(PlanError::StorageReadError);
        }
        let (lm, p6) = match parse_int_x(&v, p4 + 18) {
            Some(x) => x,
            None => {
                return Err(PlanError::StorageReadError);
            },
        };
        if !(p6 < nlen && p6 + 1 == nlen) {
            return Err(PlanError::StorageReadError);
        }
        if v[p6] != '}' {
            return Err(PlanError::StorageReadError);
        }
        let plan = MealPlan { meals, week_start_date: wd, last_modified: lm };
        proof {
            if empty_list {
                assert(plan.meals@.map_values(|m: Meal| m@) =~= Seq::<MealV>::empty());
            }
            assert(parse_plan(v@) == Some(plan@));
        }
        Ok(plan)
    }

    /// The document rendering has no inverse: only the structured form can be
    /// loaded. Every call reports the unsupported direction.
    pub fn from_markdown(_text: &str) -> (r: Result<MealPlan, PlanError>)
        ensures
            r == Err::<MealPlan, PlanError>(PlanError::UnsupportedOperation),
    {
        Err(PlanError::UnsupportedOperation)
    }
}

/// The bounds facts a caller needs about where a string body ends.
proof fn lemma_parse_string_body_end(s: Seq<char>, pos: int)
    requires
        0 <= pos,
    ensures
        match parse_string_body(s, pos) {
            Some((t, e)) => pos < e <= s.len(),
            None => true,
        },
    decreases s.len() - pos,
{
    if 0 <= pos < s.len() && s[pos] != '"' {
        if s[pos] == '\\' {
            if pos + 1 < s.len() {
                lemma_parse_string_body_end(s, pos + 2);
            }
        } else {
            lemma_parse_string_body_end(s, pos + 1);
        }
    }
}

} // verus!
