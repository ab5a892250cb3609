//! Search options: how a query is matched and how matching videos are sorted.
use vstd::prelude::*;
use vstd::string::StringExecFns;
use crate::text::chars_of;

verus! {

/// How the query string is matched against caption text.
#[derive(Clone, Copy, Debug, PartialEq, Eq, Structural)]
pub enum SearchType {
    /// Exact phrase, also against a stemmed variant of the text.
    Natural,
    /// Phrase, all-terms, fuzzy and partial matching, in falling priority.
    Wide,
}

/// The primary key by which matching videos are ordered.
#[derive(Clone, Copy, Debug, PartialEq, Eq, Structural)]
pub enum SortBy {
    Relevance,
    UploadDate,
    Duration,
    Views,
    Likes,
    CaptionMatches,
}

/// Direction of the primary sort key.
#[derive(Clone, Copy, Debug, PartialEq, Eq, Structural)]
pub enum SortOrder {
    Asc,
    Desc,
}

/// Options of one search request.
#[derive(Clone, Debug)]
pub struct SearchOptions {
    pub search_type: SearchType,
    /// Edit distance for fuzzy clauses ("AUTO", "1", "2", ...); `None` means "AUTO".
    pub fuzzy_distance: Option<String>,
    pub sort_by: SortBy,
    pub sort_order: SortOrder,
}

/// Whether two strings hold the same characters.
pub fn str_eq(a: &str, b: &str) -> (r: bool)
    ensures
        r == (a@ == b@),
{
    let x = chars_of(a);
    let y = chars_of(b);
    if x.len() != y.len() {
        return false;
    }
    let mut i: usize = 0;
    while i < x.len()
        invariant
            x@ == a@,
            y@ == b@,
            x.len() == y.len(),
            i <= x.len(),
            forall|j: int| 0 <= j < i ==> x@[j] == y@[j],
        decreases x.len() - i,
    {
        if x[i] != y[i] {
            assert(a@[i as int] != b@[i as int]);
            return false;
        }
        i = i + 1;
    }
    assert(x@ =~= y@);
    true
}

/// The form value that names a sort key.
pub open spec fn sort_by_key_spec(sb: SortBy) -> Seq<char> {
    match sb {
        SortBy::Relevance => "relevance"@,
        SortBy::UploadDate => "upload_date"@,
        SortBy::Duration => "duration"@,
        SortBy::Views => "views"@,
        SortBy::Likes => "likes"@,
        SortBy::CaptionMatches => "caption_matches"@,
    }
}

/// The form value that names a sort direction.
pub open spec fn sort_order_key_spec(so: SortOrder) -> Seq<char> {
    match so {
        SortOrder::Asc => "asc"@,
        SortOrder::Desc => "desc"@,
    }
}

/// The form value that names `sb`.
pub fn sort_by_key(sb: &SortBy) -> (r: &'static str)
    ensures
        r@ == sort_by_key_spec(*sb),
{
    match sb {
        SortBy::Relevance => "relevance",
        SortBy::UploadDate => "upload_date",
        SortBy::Duration => "duration",
        SortBy::Views => "views",
        SortBy::Likes => "likes",
        SortBy::CaptionMatches => "caption_matches",
    }
}

/// The sort key that the form value `key` names, if any.
pub fn sort_by_from_key(key: &str) -> (r: Option<SortBy>)
    ensures
        match r {
            Some(sb) => sort_by_key_spec(sb) == key@,
            None => forall|sb: SortBy| sort_by_key_spec(sb) != key@,
        },
{
    if str_eq(key, "relevance") {
        Some(SortBy::Relevance)
    } else if str_eq(key, "upload_date") {
        Some(SortBy::UploadDate)
    } else if str_eq(key, "duration") {
        Some(SortBy::Duration)
    } else if str_eq(key, "views") {
        Some(SortBy::Views)
    } else if str_eq(key, "likes") {
        Some(SortBy::Likes)
    } else if str_eq(key, "caption_matches") {
        Some(SortBy::CaptionMatches)
    } else {
        None
    }
}

/// The form value that names `so`.
pub fn sort_order_key(so: &SortOrder) -> (r: &'static str)
    ensures
        r@ == sort_order_key_spec(*so),
{
    match so {
        SortOrder::Asc => "asc",
        SortOrder::Desc => "desc",
    }
}

/// The sort direction that the form value `key` names, if any.
pub fn sort_order_from_key(key: &str) -> (r: Option<SortOrder>)
    ensures
        match r {
            Some(so) => sort_order_key_spec(so) == key@,
            None => forall|so: SortOrder| sort_order_key_spec(so) != key@,
        },
{
    if str_eq(key, "asc") {
        Some(SortOrder::Asc)
    } else if str_eq(key, "desc") {
        Some(SortOrder::Desc)
    } else {
        None
    }
}

impl SortBy {
    /// The label shown for this sort key.
    pub fn display_name(&self) -> (r: &'static str)
        ensures
            r@ == match self {
                SortBy::Relevance => "Relevance"@,
                SortBy::UploadDate => "Upload date"@,
                SortBy::Duration => "Duration"@,
                SortBy::Views => "Views"@,
                SortBy::Likes => "Likes"@,
                SortBy::CaptionMatches => "Caption matches"@,
            },
    {
        match self {
            SortBy::Relevance => "Relevance",
            SortBy::UploadDate => "Upload date",
            SortBy::Duration => "Duration",
            SortBy::Views => "Views",
            SortBy::Likes => "Likes",
            SortBy::CaptionMatches => "Caption matches",
        }
    }

    /// Every sort key, in the order they are offered.
    pub fn all_variants() -> (r: Vec<SortBy>)
        ensures
            r@ == seq![
                SortBy::Relevance,
                SortBy::UploadDate,
                SortBy::Duration,
                SortBy::Views,
                SortBy::Likes,
                SortBy::CaptionMatches,
            ],
    {
        let r = vec![
            SortBy::Relevance,
            SortBy::UploadDate,
            SortBy::Duration,
            SortBy::Views,
            SortBy::Likes,
            SortBy::CaptionMatches,
        ];
        assert(r@ =~= seq![
            SortBy::Relevance,
            SortBy::UploadDate,
            SortBy::Duration,
            SortBy::Views,
            SortBy::Likes,
            SortBy::CaptionMatches,
        ]);
        r
    }
}

impl SortOrder {
    /// The label shown for this direction.
    pub fn display_name(&self) -> (r: &'static str)
        ensures
            r@ == match self {
                SortOrder::Asc => "Ascending"@,
                SortOrder::Desc => "Descending"@,
            },
    {
        match self {
            SortOrder::Asc => "Ascending",
            SortOrder::Desc => "Descending",
        }
    }
}

impl SearchOptions {
    /// Literal phrase search with light stemming tolerance.
    pub fn natural(sort_by: SortBy, sort_order: SortOrder) -> (r: Self)
        ensures
            r.search_type == SearchType::Natural,
            r.fuzzy_distance is None,
            r.sort_by == sort_by,
            r.sort_order == sort_order,
    {
        SearchOptions { search_type: SearchType::Natural, fuzzy_distance: None, sort_by, sort_order }
    }

    /// Wide search with fuzzy matching at the index's automatic distance
    /// ("AUTO": chosen by term length).
    pub fn wide(sort_by: SortBy, sort_order: SortOrder) -> (r: Self)
        ensures
            r.search_type == SearchType::Wide,
            r.fuzzy_distance matches Some(d) && d@ == "AUTO"@,
            r.sort_by == sort_by,
            r.sort_order == sort_order,
    {
        proof {
            reveal_strlit("AUTO");
        }
        SearchOptions {
            search_type: SearchType::Wide,
            fuzzy_distance: Some(String::from_str("AUTO")),
            sort_by,
            sort_order,
        }
    }
}

} // verus!
