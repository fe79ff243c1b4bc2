use vstd::prelude::*;
use crate::date::{
    Date, iso_date_chars, iso_date_seq, lemma_iso_date_round_trip, parse_iso_date,
    parse_iso_date_x, valid_date,
};
use crate::errors::PlanError;
use crate::json::{
    escape, escape_x, lemma_parse_escaped, match_at, match_at_x, parse_string_body,
    parse_string_body_x,
};
use crate::text::{chars_to_string, copy_range, str_chars};

verus! {

/// Settings of the surrounding tool: where plans are stored, and which week
/// is current.
#[derive(Clone, Debug)]
pub struct Config {
    pub meal_plan_storage_path: String,
    pub current_week_start_date: Date,
}

/// Mathematical value of a configuration.
pub ghost struct ConfigV {
    pub meal_plan_storage_path: Seq<char>,
    pub current_week_start_date: Date,
}

impl View for Config {
    type V = ConfigV;

    open spec fn view(&self) -> ConfigV {
        ConfigV {
            meal_plan_storage_path: self.meal_plan_storage_path@,
            current_week_start_date: self.current_week_start_date,
        }
    }
}

pub open spec fn config_wf(c: ConfigV) -> bool {
    valid_date(c.current_week_start_date)
}

pub open spec fn tok_cfg_open() -> Seq<char> {
    seq![
        '{', '"', 'm', 'e', 'a', 'l', '_', 'p', 'l', 'a', 'n', '_', 's', 't', 'o', 'r', 'a', 'g',
        'e', '_', 'p', 'a', 't', 'h', '"', ':', '"',
    ]
}

pub open spec fn tok_cfg_week() -> Seq<char> {
    seq![
        ',', '"', 'c', 'u', 'r', 'r', 'e', 'n', 't', '_', 'w', 'e', 'e', 'k', '_', 's', 't', 'a',
        'r', 't', '_', 'd', 'a', 't', 'e', '"', ':', '"',
    ]
}

/// The canonical structured form of a configuration.
pub open spec fn config_json(c: ConfigV) -> Seq<char> {
    tok_cfg_open() + escape(c.meal_plan_storage_path) + seq!['"'] + tok_cfg_week() + iso_date_seq(
        c.current_week_start_date,
    ) + seq!['"', '}']
}

/// Strict parse of a whole configuration document.
pub open spec fn parse_config(s: Seq<char>) -> Option<ConfigV> {
    if !match_at(s, 0, tok_cfg_open()) {
        None
    } else {
        match parse_string_body(s, 27) {
            None => None,
            Some((path, p2)) => {
                if !match_at(s, p2, tok_cfg_week()) {
                    None
                } else {
                    let p3 = p2 + 28;
                    if p3 + 10 <= s.len() {
                        match parse_iso_date(s.subrange(p3, p3 + 10)) {
                            None => None,
                            Some(wd) => {
                                let p4 = p3 + 10;
                                if p4 + 2 == s.len() && match_at(s, p4, seq!['"', '}']) {
                                    Some(
                                        ConfigV {
                                            meal_plan_storage_path: path,
                                            current_week_start_date: wd,
                                        },
                                    )
                                } else {
                                    None
                                }
                            },
                        }
                    } else {
                        None
                    }
                }
            },
        }
    }
}

proof fn lemma_config_layout(c: ConfigV)
    ensures
        config_json(c).len() == 68 + escape(c.meal_plan_storage_path).len(),
        match_at(config_json(c), 0, tok_cfg_open()),
        forall|i: int|
            0 <= i < escape(c.meal_plan_storage_path).len() ==> config_json(c)[27 + i]
                == #[trigger] escape(c.meal_plan_storage_path)[i],
        config_json(c)[27 + escape(c.meal_plan_storage_path).len() as int] == '"',
        match_at(
            config_json(c),
            28 + escape(c.meal_plan_storage_path).len() as int,
            tok_cfg_week(),
        ),
        config_json(c).subrange(
            56 + escape(c.meal_plan_storage_path).len() as int,
            66 + escape(c.meal_plan_storage_path).len() as int,
        ) == iso_date_seq(c.current_week_start_date),
        match_at(
            config_json(c),
            66 + escape(c.meal_plan_storage_path).len() as int,
            seq!['"', '}'],
        ),
{
    let s = config_json(c);
    let ep = escape(c.meal_plan_storage_path);
    let iso = iso_date_seq(c.current_week_start_date);
    let o2 = 28 + ep.len() as int;
    let o3 = 56 + ep.len() as int;
    let o4 = 66 + ep.len() as int;
    assert forall|i: int| 0 <= i < 27 implies s[i] == #[trigger] tok_cfg_open()[i] by {}
    assert forall|i: int| 0 <= i < ep.len() implies s[27 + i] == #[trigger] ep[i] by {}
    assert forall|i: int| 0 <= i < 28 implies s[o2 + i] == #[trigger] tok_cfg_week()[i] by {}
    assert forall|i: int| 0 <= i < 10 implies s[o3 + i] == #[trigger] iso[i] by {}
    assert(s.subrange(o3, o3 + 10) =~= iso);
    assert(s[o4] == '"');
    assert(s[o4 + 1] == '}');
}

/// Structured round-trip for configurations.
#[verifier::spinoff_prover]
#[verifier::rlimit(100)]
pub proof fn lemma_config_round_trip(c: ConfigV)
    requires
        config_wf(c),
    ensures
        parse_config(config_json(c)) == Some(c),
{
    let s = config_json(c);
    let ep = escape(c.meal_plan_storage_path);
    lemma_config_layout(c);
    lemma_parse_escaped(s, 27, c.meal_plan_storage_path);
    lemma_iso_date_round_trip(c.current_week_start_date);
}

impl Config {
    /// A configuration from an explicit storage location and week start.
    pub fn new(meal_plan_storage_path: String, current_week_start_date: Date) -> (r: Config)
        requires
            valid_date(current_week_start_date),
        ensures
            r@.meal_plan_storage_path == meal_plan_storage_path@,
            r@.current_week_start_date == current_week_start_date,
            config_wf(r@),
    {
        Config { meal_plan_storage_path, current_week_start_date }
    }

    /// The canonical structured text of this configuration.
    pub fn to_json(&self) -> (r: String)
        requires
            config_wf(self@),
        ensures
            r@ == config_json(self@),
    {
        let mut v: Vec<char> = vec![
            '{', '"', 'm', 'e', 'a', 'l', '_', 'p', 'l', 'a', 'n', '_', 's', 't', 'o', 'r', 'a',
            'g', 'e', '_', 'p', 'a', 't', 'h', '"', ':', '"',
        ];
        let pc = str_chars(self.meal_plan_storage_path.as_str());
        let mut ep = escape_x(&pc);
        v.append(&mut ep);
        v.push('"');
        let mut tw: Vec<char> = vec![
            ',', '"', 'c', 'u', 'r', 'r', 'e', 'n', 't', '_', 'w', 'e', 'e', 'k', '_', 's', 't',
            'a', 'r', 't', '_', 'd', 'a', 't', 'e', '"', ':', '"',
        ];
        v.append(&mut tw);
        let mut iso = iso_date_chars(&self.current_week_start_date);
        v.append(&mut iso);
        v.push('"');
        v.push('}');
        proof {
            assert(v@ =~= config_json(self@));
        }
        chars_to_string(&v)
    }

    /// Reads a configuration back from its structured text.
    pub fn from_json(s: &str) -> (r: Result<Config, PlanError>)
        ensures
            match r {
                Ok(c) => parse_config(s@) == Some(c@) && config_wf(c@),
                Err(e) => parse_config(s@) is None && e == PlanError::StorageReadError,
            },
    {
        let v = str_chars(s);
        let nlen: usize = v.len();
        if !match_at_x(&v, 0, &vec![
            '{', '"', 'm', 'e', 'a', 'l', '_', 'p', 'l', 'a', 'n', '_', 's', 't', 'o', 'r', 'a',
            'g', 'e', '_', 'p', 'a', 't', 'h', '"', ':', '"',
        ]) {
            return Err(PlanError::StorageReadError);
        }
        let (path, p2) = match parse_string_body_x(&v, 27) {
            Some(x) => x,
            None => {
                return Err(PlanError::StorageReadError);
            },
        };
        if !match_at_x(&v, p2, &vec![
            ',', '"', 'c', 'u', 'r', 'r', 'e', 'n', 't', '_', 'w', 'e', 'e', 'k', '_', 's', 't',
            'a', 'r', 't', '_', 'd', 'a', 't', 'e', '"', ':', '"',
        ]) {
            return Err(PlanError::StorageReadError);
        }
        let p3 = p2 + 28;
        if nlen - p3 < 10 {
            return Err(PlanError::StorageReadError);
        }
        let window = copy_range(&v, p3, p3 + 10);
        let wd = match parse_iso_date_x(&window) {
            Some(d) => d,
            None => {
                return Err(PlanError::StorageReadError);
            },
        };
        let p4 = p3 + 10;
        if !(nlen >= 2 && p4 == nlen - 2 && match_at_x(&v, p4, &vec!['"', '}'])) {
            return Err(PlanError::StorageReadError);
        }
        let cfg = Config {
            meal_plan_storage_path: chars_to_string(&path),
            current_week_start_date: wd,
        };
        proof {
            assert(parse_config(v@) == Some(cfg@));
        }
        Ok(cfg)
    }
}

} // verus!
