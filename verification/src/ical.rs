use vstd::prelude::*;
use crate::date::{
    Date, date_weekday_idx, day_number, pad2, pad2_x, pad4, pad4_x, valid_date, valid_date_ext,
    weekday_idx,
};
use crate::model::{
    Day, MealPlan, MealType, MealV, PlanV, meal_type_name, meal_type_name_chars, now_timestamp,
    plan_wf, valid_day,
};
use crate::nums::{dec_digits, dec_digits_x, i64_digits_x, int_digits};
use crate::resolver::resolve_to_date;
use crate::text::{chars_to_string, lower_seq, lower_vec, str_chars};

verus! {

/// Where a day resolves to, anchored at the plan's week start: a concrete
/// date stands as it is, a weekday symbol lands on the one matching date of
/// the anchored week.
pub open spec fn resolved_ok(day: Day, week_start: Date, rd: Date) -> bool {
    match day {
        Day::Date(d0) => rd == d0,
        Day::Weekday(w) => {
            &&& valid_date_ext(rd)
            &&& day_number(week_start) <= day_number(rd) <= day_number(week_start) + 6
            &&& date_weekday_idx(rd) == weekday_idx(w)
        },
    }
}

/// Digits of a year; years past four digits keep all their digits.
pub open spec fn year_digits(y: int) -> Seq<char> {
    if y <= 9999 {
        pad4(y)
    } else {
        dec_digits(y)
    }
}

/// The compact date stamp YYYYMMDD.
pub open spec fn date_stamp(d: Date) -> Seq<char> {
    year_digits(d.year as int) + pad2(d.month as int) + pad2(d.day as int)
}

/// The fixed start hour of each meal kind.
pub open spec fn meal_hour(t: MealType) -> int {
    match t {
        MealType::Breakfast => 8,
        MealType::Lunch => 12,
        MealType::Dinner => 18,
        MealType::Snack => 15,
    }
}

pub open spec fn crlf() -> Seq<char> {
    seq!['\r', '\n']
}

/// Text escaping of one character for calendar property values: backslash,
/// semicolon and comma gain a backslash, a newline becomes the two
/// characters backslash-n, and a bare carriage return is dropped, so no
/// entry text can break the property lines or the begin/end markers.
pub open spec fn ical_esc_char(c: char) -> Seq<char> {
    if c == '\\' {
        seq!['\\', '\\']
    } else if c == ';' {
        seq!['\\', ';']
    } else if c == ',' {
        seq!['\\', ',']
    } else if c == '\n' {
        seq!['\\', 'n']
    } else if c == '\r' {
        Seq::empty()
    } else {
        seq![c]
    }
}

pub open spec fn ical_escape(s: Seq<char>) -> Seq<char>
    decreases s.len(),
{
    if s.len() == 0 {
        Seq::empty()
    } else {
        ical_esc_char(s[0]) + ical_escape(s.drop_first())
    }
}

proof fn lemma_ical_escape_concat(a: Seq<char>, b: Seq<char>)
    ensures
        ical_escape(a + b) == ical_escape(a) + ical_escape(b),
    decreases a.len(),
{
    if a.len() == 0 {
        assert(a + b =~= b);
        assert(ical_escape(a) + ical_escape(b) =~= ical_escape(b));
    } else {
        assert((a + b)[0] == a[0]);
        assert((a + b).drop_first() =~= a.drop_first() + b);
        lemma_ical_escape_concat(a.drop_first(), b);
        assert(ical_escape(a + b) =~= ical_escape(a) + ical_escape(b));
    }
}

/// Escapes a string for use as a calendar property value.
fn ical_escape_x(t: &Vec<char>) -> (v: Vec<char>)
    ensures
        v@ == ical_escape(t@),
{
    let mut v: Vec<char> = Vec::new();
    let mut i: usize = 0;
    while i < t.len()
        invariant
            i <= t@.len(),
            v@ == ical_escape(t@.subrange(0, i as int)),
        decreases t@.len() - i,
    {
        let c = t[i];
        match c {
            '\\' => {
                v.push('\\');
                v.push('\\');
            },
            ';' => {
                v.push('\\');
                v.push(';');
            },
            ',' => {
                v.push('\\');
                v.push(',');
            },
            '\n' => {
                v.push('\\');
                v.push('n');
            },
            '\r' => {},
            _ => {
                v.push(c);
            },
        }
        proof {
            let pre = t@.subrange(0, i as int);
            let one = seq![t@[i as int]];
            assert(t@.subrange(0, i + 1) =~= pre + one);
            lemma_ical_escape_concat(pre, one);
            assert(one[0] == t@[i as int]);
            assert(one.drop_first() =~= Seq::<char>::empty());
            assert(ical_escape(one) == ical_esc_char(one[0]) + ical_escape(one.drop_first()));
            assert(ical_escape(one) =~= ical_esc_char(t@[i as int]));
            assert(v@ =~= ical_escape(pre) + ical_esc_char(t@[i as int]));
        }
        i += 1;
    }
    proof {
        assert(t@.subrange(0, t@.len() as int) =~= t@);
    }
    v
}

/// The opening of one event: the begin marker, the unique identifier built
/// from the kind, the date stamp and the export time, and the one-hour slot.
pub open spec fn ical_event_head(m: MealV, rd: Date, ts: int) -> Seq<char> {
    seq!['B', 'E', 'G', 'I', 'N', ':', 'V', 'E', 'V', 'E', 'N', 'T'] + crlf() + seq![
        'U', 'I', 'D', ':', 'm', 'e', 'a', 'l', '-',
    ] + lower_seq(meal_type_name(m.meal_type)) + seq!['-'] + date_stamp(rd) + seq!['-']
        + int_digits(ts) + seq!['@', 'm', 'e', 'a', 'l', 'p', 'l', 'a', 'n'] + crlf() + seq![
        'D', 'T', 'S', 'T', 'A', 'R', 'T', ':',
    ] + date_stamp(rd) + seq!['T'] + pad2(meal_hour(m.meal_type)) + seq!['0', '0', '0', '0', 'Z']
        + crlf() + seq!['D', 'T', 'E', 'N', 'D', ':'] + date_stamp(rd) + seq!['T'] + pad2(
        meal_hour(m.meal_type) + 1,
    ) + seq!['0', '0', '0', '0', 'Z'] + crlf()
}

/// One timed event: a one-hour slot on the resolved date, summarised as
/// "<kind>: <description>" with the cook in the body (both escaped as
/// property values), and a unique identifier built from the kind, the date
/// stamp and the export time.
pub open spec fn ical_event(m: MealV, rd: Date, ts: int) -> Seq<char> {
    ical_event_head(m, rd, ts) + seq![
        'S', 'U', 'M', 'M', 'A', 'R', 'Y', ':',
    ] + meal_type_name(m.meal_type) + seq![':', ' '] + ical_escape(m.description) + crlf() + seq![
        'D', 'E', 'S', 'C', 'R', 'I', 'P', 'T', 'I', 'O', 'N', ':', 'C', 'o', 'o', 'k', ':', ' ',
    ] + ical_escape(m.cook) + crlf() + seq!['E', 'N', 'D', ':', 'V', 'E', 'V', 'E', 'N', 'T'] + crlf()
}

/// The events of all entries, one per entry, in order.
pub open spec fn ical_events(ms: Seq<MealV>, rds: Seq<Date>, ts: int) -> Seq<char>
    decreases ms.len(),
{
    if ms.len() == 0 || rds.len() == 0 {
        Seq::empty()
    } else {
        ical_event(ms[0], rds[0], ts) + ical_events(ms.drop_first(), rds.drop_first(), ts)
    }
}

pub open spec fn ical_header() -> Seq<char> {
    seq!['B', 'E', 'G', 'I', 'N', ':', 'V', 'C', 'A', 'L', 'E', 'N', 'D', 'A', 'R'] + crlf()
        + seq!['V', 'E', 'R', 'S', 'I', 'O', 'N', ':', '2', '.', '0'] + crlf() + seq![
        'P', 'R', 'O', 'D', 'I', 'D', ':', '-', '/', '/', 'm', 'e', 'a', 'l', 'p', 'l', 'a', 'n',
        '/', '/', 'E', 'N',
    ] + crlf()
}

pub open spec fn ical_footer() -> Seq<char> {
    seq!['E', 'N', 'D', ':', 'V', 'C', 'A', 'L', 'E', 'N', 'D', 'A', 'R'] + crlf()
}

/// A complete calendar document for the given resolved dates and export time.
pub open spec fn ical_doc(p: PlanV, rds: Seq<Date>, ts: int) -> Seq<char> {
    ical_header() + ical_events(p.meals, rds, ts) + ical_footer()
}

/// What to_ical promises of its output: there are resolved dates, one per
/// entry and each placed correctly in the anchored week, and an export time,
/// such that the output is exactly their calendar document.
pub open spec fn ical_output_ok(p: PlanV, out: Seq<char>) -> bool {
    exists|rds: Seq<Date>, ts: int|
        {
            &&& rds.len() == p.meals.len()
            &&& (forall|i: int|
                0 <= i < rds.len() ==> resolved_ok(
                    #[trigger] p.meals[i].day,
                    p.week_start_date,
                    rds[i],
                ))
            &&& out == ical_doc(p, rds, ts)
        }
}

proof fn lemma_ical_events_push(ms: Seq<MealV>, rds: Seq<Date>, m: MealV, rd: Date, ts: int)
    requires
        ms.len() == rds.len(),
    ensures
        ical_events(ms.push(m), rds.push(rd), ts) == ical_events(ms, rds, ts) + ical_event(
            m,
            rd,
            ts,
        ),
    decreases ms.len(),
{
    if ms.len() == 0 {
        assert(ms.push(m)[0] == m);
        assert(rds.push(rd)[0] == rd);
        assert(ms.push(m).drop_first() =~= Seq::<MealV>::empty());
        assert(rds.push(rd).drop_first() =~= Seq::<Date>::empty());
        assert(ical_events(Seq::<MealV>::empty(), Seq::<Date>::empty(), ts) == Seq::<char>::empty());
        assert(ical_events(ms, rds, ts) == Seq::<char>::empty());
        assert(ical_events(ms.push(m), rds.push(rd), ts) =~= ical_events(ms, rds, ts) + ical_event(
            m,
            rd,
            ts,
        ));
    } else {
        assert(ms.push(m)[0] == ms[0]);
        assert(rds.push(rd)[0] == rds[0]);
        assert(ms.push(m).drop_first() =~= ms.drop_first().push(m));
        assert(rds.push(rd).drop_first() =~= rds.drop_first().push(rd));
        lemma_ical_events_push(ms.drop_first(), rds.drop_first(), m, rd, ts);
        assert(ical_events(ms.push(m), rds.push(rd), ts) =~= ical_events(ms, rds, ts) + ical_event(
            m,
            rd,
            ts,
        ));
    }
}

fn year_digits_x(y: u32) -> (v: Vec<char>)
    requires
        1 <= y <= 10000,
    ensures
        v@ == year_digits(y as int),
{
    if y <= 9999 {
        pad4_x(y)
    } else {
        dec_digits_x(y as u64)
    }
}

fn date_stamp_x(d: &Date) -> (v: Vec<char>)
    requires
        valid_date_ext(*d),
    ensures
        v@ == date_stamp(*d),
{
    let mut v = year_digits_x(d.year);
    let mut m = pad2_x(d.month);
    let mut dd = pad2_x(d.day);
    v.append(&mut m);
    v.append(&mut dd);
    proof {
        assert(v@ =~= date_stamp(*d));
    }
    v
}

fn meal_hour_x(t: &MealType) -> (r: u32)
    ensures
        r as int == meal_hour(*t),
{
    match t {
        MealType::Breakfast => 8,
        MealType::Lunch => 12,
        MealType::Dinner => 18,
        MealType::Snack => 15,
    }
}

/// Writes the opening of one event block.
#[verifier::spinoff_prover]
#[verifier::rlimit(100)]
fn ical_event_head_chars(m: &crate::model::Meal, rd: &Date, ts: i64) -> (v: Vec<char>)
    requires
        valid_date_ext(*rd),
    ensures
        v@ == ical_event_head(m@, *rd, ts as int),
{
    let mut v: Vec<char> = vec!['B', 'E', 'G', 'I', 'N', ':', 'V', 'E', 'V', 'E', 'N', 'T', '\r', '\n'];
    proof {
        assert(v@ =~= seq!['B', 'E', 'G', 'I', 'N', ':', 'V', 'E', 'V', 'E', 'N', 'T'] + crlf());
    }
    let mut uid: Vec<char> = vec!['U', 'I', 'D', ':', 'm', 'e', 'a', 'l', '-'];
    v.append(&mut uid);
    let mut lname = lower_vec(&meal_type_name_chars(&m.meal_type));
    v.append(&mut lname);
    v.push('-');
    let mut st1 = date_stamp_x(rd);
    v.append(&mut st1);
    v.push('-');
    let mut tsd = i64_digits_x(ts);
    v.append(&mut tsd);
    let mut dom: Vec<char> = vec!['@', 'm', 'e', 'a', 'l', 'p', 'l', 'a', 'n', '\r', '\n'];
    v.append(&mut dom);
    let mut dts: Vec<char> = vec!['D', 'T', 'S', 'T', 'A', 'R', 'T', ':'];
    v.append(&mut dts);
    let mut st2 = date_stamp_x(rd);
    v.append(&mut st2);
    v.push('T');
    let hour = meal_hour_x(&m.meal_type);
    let mut h1 = pad2_x(hour);
    v.append(&mut h1);
    let mut z1: Vec<char> = vec!['0', '0', '0', '0', 'Z', '\r', '\n'];
    v.append(&mut z1);
    let mut dte: Vec<char> = vec!['D', 'T', 'E', 'N', 'D', ':'];
    v.append(&mut dte);
    let mut st3 = date_stamp_x(rd);
    v.append(&mut st3);
    v.push('T');
    let mut h2 = pad2_x(hour + 1);
    v.append(&mut h2);
    let mut z2: Vec<char> = vec!['0', '0', '0', '0', 'Z', '\r', '\n'];
    v.append(&mut z2);
    proof {
        assert(v@ =~= ical_event_head(m@, *rd, ts as int));
    }
    v
}

/// Writes one event block.
#[verifier::spinoff_prover]
#[verifier::rlimit(100)]
fn ical_event_chars(m: &crate::model::Meal, rd: &Date, ts: i64) -> (v: Vec<char>)
    requires
        valid_date_ext(*rd),
    ensures
        v@ == ical_event(m@, *rd, ts as int),
{
    let mut v = ical_event_head_chars(m, rd, ts);
    let mut sm: Vec<char> = vec!['S', 'U', 'M', 'M', 'A', 'R', 'Y', ':'];
    v.append(&mut sm);
    let mut tn = meal_type_name_chars(&m.meal_type);
    v.append(&mut tn);
    v.push(':');
    v.push(' ');
    let mut de = ical_escape_x(&str_chars(m.description.as_str()));
    v.append(&mut de);
    v.push('\r');
    v.push('\n');
    let mut dsc: Vec<char> = vec![
        'D', 'E', 'S', 'C', 'R', 'I', 'P', 'T', 'I', 'O', 'N', ':', 'C', 'o', 'o', 'k', ':', ' ',
    ];
    v.append(&mut dsc);
    let mut ck = ical_escape_x(&str_chars(m.cook.as_str()));
    v.append(&mut ck);
    v.push('\r');
    v.push('\n');
    let mut en: Vec<char> = vec!['E', 'N', 'D', ':', 'V', 'E', 'V', 'E', 'N', 'T', '\r', '\n'];
    v.append(&mut en);
    proof {
        assert(v@ =~= ical_event(m@, *rd, ts as int));
    }
    v
}

impl MealPlan {
    /// The one-way calendar rendering of this plan: one event per entry,
    /// placed by resolving its day against the plan's week start.
    pub fn to_ical(&self) -> (r: String)
        requires
            plan_wf(self@),
        ensures
            ical_output_ok(self@, r@),
    {
        let ts = now_timestamp();
        // resolve every entry first
        let mut rds: Vec<Date> = Vec::new();
        let mut i: usize = 0;
        while i < self.meals.len()
            invariant
                i <= self.meals@.len(),
                plan_wf(self@),
                rds@.len() == i,
                forall|j: int|
                    0 <= j < i ==> resolved_ok(
                        #[trigger] self@.meals[j].day,
                        self@.week_start_date,
                        rds@[j],
                    ) && valid_date_ext(#[trigger] rds@[j]),
            decreases self.meals@.len() - i,
        {
            proof {
                assert(valid_day(self@.meals[i as int].day));
            }
            let rd = resolve_to_date(&self.meals[i].day, &self.week_start_date);
            proof {
                match self@.meals[i as int].day {
                    Day::Date(d0) => {
                        assert(valid_date(d0));
                    },
                    Day::Weekday(_) => {},
                }
            }
            rds.push(rd);
            i += 1;
        }
        // render
        let mut v: Vec<char> = vec![
            'B', 'E', 'G', 'I', 'N', ':', 'V', 'C', 'A', 'L', 'E', 'N', 'D', 'A', 'R', '\r', '\n',
            'V', 'E', 'R', 'S', 'I', 'O', 'N', ':', '2', '.', '0', '\r', '\n', 'P', 'R', 'O', 'D',
            'I', 'D', ':', '-', '/', '/', 'm', 'e', 'a', 'l', 'p', 'l', 'a', 'n', '/', '/', 'E',
            'N', '\r', '\n',
        ];
        proof {
            assert(v@ =~= ical_header());
        }
        let mut k: usize = 0;
        while k < self.meals.len()
            invariant
                k <= self.meals@.len(),
                plan_wf(self@),
                rds@.len() == self.meals@.len(),
                forall|j: int|
                    0 <= j < rds@.len() ==> resolved_ok(
                        #[trigger] self@.meals[j].day,
                        self@.week_start_date,
                        rds@[j],
                    ) && valid_date_ext(#[trigger] rds@[j]),
                v@ == ical_header() + ical_events(
                    self@.meals.subrange(0, k as int),
                    rds@.subrange(0, k as int),
                    ts as int,
                ),
            decreases self.meals@.len() - k,
        {
            proof {
                let mpre = self@.meals.subrange(0, k as int);
                let rpre = rds@.subrange(0, k as int);
                assert(mpre.push(self@.meals[k as int]) =~= self@.meals.subrange(0, k + 1));
                assert(rpre.push(rds@[k as int]) =~= rds@.subrange(0, k + 1));
                lemma_ical_events_push(mpre, rpre, self@.meals[k as int], rds@[k as int], ts as int);
                assert(resolved_ok(
                    self@.meals[k as int].day,
                    self@.week_start_date,
                    rds@[k as int],
                ) && valid_date_ext(rds@[k as int]));
            }
            let mut ev = ical_event_chars(&self.meals[k], &rds[k], ts);
            v.append(&mut ev);
            k += 1;
        }
        proof {
            assert(self@.meals.subrange(0, self@.meals.len() as int) =~= self@.meals);
            assert(rds@.subrange(0, rds@.len() as int) =~= rds@);
        }
        let mut ft: Vec<char> = vec![
            'E', 'N', 'D', ':', 'V', 'C', 'A', 'L', 'E', 'N', 'D', 'A', 'R', '\r', '\n',
        ];
        v.append(&mut ft);
        proof {
            assert(v@ =~= ical_doc(self@, rds@, ts as int));
            assert(ical_output_ok(self@, v@)) by {
                let witness_rds = rds@;
                let witness_ts = ts as int;
                assert({
                    &&& witness_rds.len() == self@.meals.len()
                    &&& (forall|i2: int|
                        0 <= i2 < witness_rds.len() ==> resolved_ok(
                            #[trigger] self@.meals[i2].day,
                            self@.week_start_date,
                            witness_rds[i2],
                        ))
                    &&& v@ == ical_doc(self@, witness_rds, witness_ts)
                });
            }
        }
        chars_to_string(&v)
    }
}

} // verus!
