//! Query planning: the matching clauses that a query string and a search
//! mode turn into. The plan is shared unchanged by ranking and by caption
//! fetching, so that what ranks a video is what highlights its captions.
use vstd::prelude::*;
use vstd::string::StringExecFns;
use crate::options::{SearchOptions, SearchType};

verus! {

/// A caption text field of the index.
#[derive(Clone, Copy, Debug, PartialEq, Eq, Structural)]
pub enum TextField {
    /// The text as written ("text").
    Raw,
    /// The stemmed variant of the text ("text.stemmed").
    Stemmed,
}

/// How the terms of a multi-term clause combine.
#[derive(Clone, Copy, Debug, PartialEq, Eq, Structural)]
pub enum TermOperator {
    And,
    Or,
}

/// A field searched with a weight; weights and boosts are in tenths.
#[derive(Clone, Copy, Debug, PartialEq, Eq, Structural)]
pub struct WeightedField {
    pub field: TextField,
    pub boost_tenths: u32,
}

/// The query string as a phrase in one field.
#[derive(Clone, Debug)]
pub struct PhraseClause {
    pub field: TextField,
    pub query: String,
    /// Words allowed between the phrase's terms; `None` leaves the index default.
    pub slop: Option<u32>,
    pub boost_tenths: u32,
}

/// The query string's terms over several fields.
#[derive(Clone, Debug)]
pub struct TermsClause {
    pub fields: Vec<WeightedField>,
    pub query: String,
    pub operator: TermOperator,
    /// Edit distance for fuzzy term matching; `None` matches terms exactly.
    pub fuzziness: Option<String>,
    /// Share of the terms, in percent, that must be present.
    pub minimum_match_percent: Option<u32>,
    pub boost_tenths: u32,
}

/// One clause of the disjunction that a query plan is.
#[derive(Clone, Debug)]
pub enum MatchClause {
    Phrase(PhraseClause),
    Terms(TermsClause),
}

/// A disjunction of clauses of which at least one must match, each with its
/// own boost.
#[derive(Clone, Debug)]
pub struct QueryPlan {
    pub clauses: Vec<MatchClause>,
}

/// A clause as a value.
pub enum ClauseSpec {
    Phrase { field: TextField, query: Seq<char>, slop: Option<u32>, boost_tenths: u32 },
    Terms {
        fields: Seq<WeightedField>,
        query: Seq<char>,
        operator: TermOperator,
        fuzziness: Option<Seq<char>>,
        minimum_match_percent: Option<u32>,
        boost_tenths: u32,
    },
}

impl View for MatchClause {
    type V = ClauseSpec;

    open spec fn view(&self) -> ClauseSpec {
        match self {
            MatchClause::Phrase(p) => ClauseSpec::Phrase {
                field: p.field,
                query: p.query@,
                slop: p.slop,
                boost_tenths: p.boost_tenths,
            },
            MatchClause::Terms(t) => ClauseSpec::Terms {
                fields: t.fields@,
                query: t.query@,
                operator: t.operator,
                fuzziness: match t.fuzziness {
                    Some(f) => Some(f@),
                    None => None,
                },
                minimum_match_percent: t.minimum_match_percent,
                boost_tenths: t.boost_tenths,
            },
        }
    }
}

impl View for QueryPlan {
    type V = Seq<ClauseSpec>;

    open spec fn view(&self) -> Seq<ClauseSpec> {
        self.clauses@.map_values(|c: MatchClause| c@)
    }
}

/// Natural mode: the exact phrase, boosted, or the exact phrase against the
/// stemmed text with no reordering.
pub open spec fn natural_plan(q: Seq<char>) -> Seq<ClauseSpec> {
    seq![
        ClauseSpec::Phrase { field: TextField::Raw, query: q, slop: None, boost_tenths: 30 },
        ClauseSpec::Phrase { field: TextField::Stemmed, query: q, slop: Some(0), boost_tenths: 10 },
    ]
}

/// Wide mode, tightest first: exact phrase; phrase with up to three words
/// between terms; all terms over raw and stemmed text; all terms, fuzzy; 75%
/// of the terms; half of the terms, fuzzy.
pub open spec fn wide_plan(q: Seq<char>, fuzzy: Seq<char>) -> Seq<ClauseSpec> {
    seq![
        ClauseSpec::Phrase { field: TextField::Raw, query: q, slop: None, boost_tenths: 40 },
        ClauseSpec::Phrase { field: TextField::Raw, query: q, slop: Some(3), boost_tenths: 30 },
        ClauseSpec::Terms {
            fields: seq![
                WeightedField { field: TextField::Raw, boost_tenths: 20 },
                WeightedField { field: TextField::Stemmed, boost_tenths: 10 },
            ],
            query: q,
            operator: TermOperator::And,
            fuzziness: None,
            minimum_match_percent: None,
            boost_tenths: 25,
        },
        ClauseSpec::Terms {
            fields: seq![
                WeightedField { field: TextField::Raw, boost_tenths: 15 },
                WeightedField { field: TextField::Stemmed, boost_tenths: 10 },
            ],
            query: q,
            operator: TermOperator::And,
            fuzziness: Some(fuzzy),
            minimum_match_percent: None,
            boost_tenths: 20,
        },
        ClauseSpec::Terms {
            fields: seq![
                WeightedField { field: TextField::Raw, boost_tenths: 10 },
                WeightedField { field: TextField::Stemmed, boost_tenths: 10 },
            ],
            query: q,
            operator: TermOperator::Or,
            fuzziness: None,
            minimum_match_percent: Some(75),
            boost_tenths: 15,
        },
        ClauseSpec::Terms {
            fields: seq![
                WeightedField { field: TextField::Raw, boost_tenths: 10 },
                WeightedField { field: TextField::Stemmed, boost_tenths: 10 },
            ],
            query: q,
            operator: TermOperator::Or,
            fuzziness: Some(fuzzy),
            minimum_match_percent: Some(50),
            boost_tenths: 10,
        },
    ]
}

/// The boost of a clause, in tenths.
pub open spec fn clause_boost(c: ClauseSpec) -> u32 {
    match c {
        ClauseSpec::Phrase { boost_tenths, .. } => boost_tenths,
        ClauseSpec::Terms { boost_tenths, .. } => boost_tenths,
    }
}

/// The fuzzy distance of the options; "AUTO" where none is set.
pub open spec fn fuzzy_setting(options: SearchOptions) -> Seq<char> {
    match options.fuzzy_distance {
        Some(f) => f@,
        None => "AUTO"@,
    }
}

/// The plan for a query string under the options' search mode.
pub open spec fn query_plan(q: Seq<char>, options: SearchOptions) -> Seq<ClauseSpec> {
    match options.search_type {
        SearchType::Natural => natural_plan(q),
        SearchType::Wide => wide_plan(q, fuzzy_setting(options)),
    }
}

fn phrase(field: TextField, q: &str, slop: Option<u32>, boost_tenths: u32) -> (r: MatchClause)
    ensures
        r@ == (ClauseSpec::Phrase { field, query: q@, slop, boost_tenths }),
{
    MatchClause::Phrase(PhraseClause { field, query: String::from_str(q), slop, boost_tenths })
}

fn terms(
    raw_boost_tenths: u32,
    q: &str,
    operator: TermOperator,
    fuzziness: Option<&str>,
    minimum_match_percent: Option<u32>,
    boost_tenths: u32,
) -> (r: MatchClause)
    ensures
        r@ == (ClauseSpec::Terms {
            fields: seq![
                WeightedField { field: TextField::Raw, boost_tenths: raw_boost_tenths },
                WeightedField { field: TextField::Stemmed, boost_tenths: 10 },
            ],
            query: q@,
            operator,
            fuzziness: match fuzziness {
                Some(f) => Some(f@),
                None => None,
            },
            minimum_match_percent,
            boost_tenths,
        }),
{
    let mut fields: Vec<WeightedField> = Vec::new();
    fields.push(WeightedField { field: TextField::Raw, boost_tenths: raw_boost_tenths });
    fields.push(WeightedField { field: TextField::Stemmed, boost_tenths: 10 });
    let fuzziness = match fuzziness {
        Some(f) => Some(String::from_str(f)),
        None => None,
    };
    let r = MatchClause::Terms(
        TermsClause {
            fields,
            query: String::from_str(q),
            operator,
            fuzziness,
            minimum_match_percent,
            boost_tenths,
        },
    );
    assert(r@ matches ClauseSpec::Terms { fields: fs, .. } && fs =~= seq![
        WeightedField { field: TextField::Raw, boost_tenths: raw_boost_tenths },
        WeightedField { field: TextField::Stemmed, boost_tenths: 10 },
    ]);
    r
}

/// The matching clauses for `query_string` under the options' search mode.
pub fn build_query(query_string: &str, options: &SearchOptions) -> (r: QueryPlan)
    ensures
        r@ == query_plan(query_string@, *options),
        forall|i: int, j: int|
            0 <= i < j < r@.len() ==> clause_boost(#[trigger] r@[i]) > clause_boost(#[trigger] r@[j]),
{
    let mut clauses: Vec<MatchClause> = Vec::new();
    match options.search_type {
        SearchType::Natural => {
            clauses.push(phrase(TextField::Raw, query_string, None, 30));
            clauses.push(phrase(TextField::Stemmed, query_string, Some(0), 10));
        },
        SearchType::Wide => {
            let fuzzy: &str = match &options.fuzzy_distance {
                Some(f) => f.as_str(),
                None => "AUTO",
            };
            clauses.push(phrase(TextField::Raw, query_string, None, 40));
            clauses.push(phrase(TextField::Raw, query_string, Some(3), 30));
            clauses.push(terms(20, query_string, TermOperator::And, None, None, 25));
            clauses.push(terms(15, query_string, TermOperator::And, Some(fuzzy), None, 20));
            clauses.push(terms(10, query_string, TermOperator::Or, None, Some(75), 15));
            clauses.push(terms(10, query_string, TermOperator::Or, Some(fuzzy), Some(50), 10));
        },
    }
    let r = QueryPlan { clauses };
    assert(r@ =~= query_plan(query_string@, *options));
    r
}

} // verus!
