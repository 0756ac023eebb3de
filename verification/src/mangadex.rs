//! The catalog side of the pipeline: resolving a tracked entry to its
//! catalog id through the cross-reference link, and reading the latest
//! published chapter out of a feed page.
//!
//! Both functions work on the decoded response rows; issuing the HTTP
//! requests and decoding the JSON bodies into these rows is the callers'
//! concern.

use vstd::prelude::*;
use crate::errors::ApiError;
use crate::numbers::{
    UnitNumber, digit_bytes, digits_value, frac_part, parse_u64_digits, parse_unit_number,
    valid_u64_digits, valid_unit_seq, whole_part,
};

verus! {

/// One row of a catalog search response: the entry's own id and, when
/// the entry carries one, the cross-reference link naming its id on the
/// progress-tracking service (a string-encoded integer).
pub struct SearchResult {
    pub id: String,
    pub anilist_link: Option<String>,
}

/// What resolving against an ordered search-result list yields: the
/// first result whose cross-reference link equals the requested id, a
/// schema violation on the first malformed link met before such a
/// match, or nothing.
///
/// A result without a link is skipped; absence of any match is not an
/// error.
pub open spec fn resolve_spec(results: Seq<SearchResult>, anilist_id: u64) -> Result<
    Option<Seq<char>>,
    ApiError,
>
    decreases results.len(),
{
    if results.len() == 0 {
        Ok(None)
    } else {
        match results[0].anilist_link {
            None => resolve_spec(results.drop_first(), anilist_id),
            Some(link) => if !valid_u64_digits(link@) {
                Err(ApiError::Decode)
            } else if digits_value(link@) == anilist_id {
                Ok(Some(results[0].id@))
            } else {
                resolve_spec(results.drop_first(), anilist_id)
            },
        }
    }
}

/// When no result's cross-reference link carries the requested id —
/// every link is either absent or a well-formed number naming some
/// other entry — resolution yields nothing, and no error.
pub proof fn lemma_resolve_mismatch(results: Seq<SearchResult>, anilist_id: u64)
    requires
        forall|i: int|
            0 <= i < results.len() ==> match #[trigger] results[i].anilist_link {
                None => true,
                Some(link) => valid_u64_digits(link@) && digits_value(link@) != anilist_id,
            },
    ensures
        resolve_spec(results, anilist_id) == Ok::<Option<Seq<char>>, ApiError>(None),
    decreases results.len(),
{
    if results.len() > 0 {
        assert(results.drop_first() =~= results.subrange(1, results.len() as int));
        lemma_resolve_mismatch(results.drop_first(), anilist_id);
    }
}

/// Walks a catalog search response in its given order and returns the
/// id of the first result whose cross-reference link equals
/// `anilist_id`. A missing link skips the result; a malformed link is a
/// data-integrity failure; exhausting the results is `Ok(None)`.
pub fn mangadex_find_id(results: &Vec<SearchResult>, anilist_id: u64) -> (r: Result<
    Option<String>,
    ApiError,
>)
    ensures
        match r {
            Ok(None) => resolve_spec(results@, anilist_id) == Ok::<Option<Seq<char>>, ApiError>(
                None,
            ),
            Ok(Some(id)) => resolve_spec(results@, anilist_id) == Ok::<Option<Seq<char>>, ApiError>(
                Some(id@),
            ),
            Err(e) => resolve_spec(results@, anilist_id) == Err::<Option<Seq<char>>, ApiError>(e),
        },
{
    proof {
        assert(results@.subrange(0, results@.len() as int) =~= results@);
    }
    let mut i: usize = 0;
    while i < results.len()
        invariant
            0 <= i <= results@.len(),
            resolve_spec(results@, anilist_id) == resolve_spec(
                results@.subrange(i as int, results@.len() as int),
                anilist_id,
            ),
        decreases results@.len() - i,
    {
        proof {
            assert(results@.subrange(i as int, results@.len() as int)[0] == results@[i as int]);
            assert(results@.subrange(i as int, results@.len() as int).drop_first()
                =~= results@.subrange(i + 1, results@.len() as int));
        }
        match &results[i].anilist_link {
            None => {},
            Some(link) => {
                match parse_u64_digits(link.as_str()) {
                    None => {
                        return Err(ApiError::Decode);
                    },
                    Some(v) => {
                        if v == anilist_id {
                            return Ok(Some(results[i].id.clone()));
                        }
                    },
                }
            },
        }
        i = i + 1;
    }
    proof {
        assert(results@.subrange(results@.len() as int, results@.len() as int)
            =~= Seq::<SearchResult>::empty());
    }
    Ok(None)
}

/// One row of a feed response: the unit-number field of a published
/// chapter, absent for a single-unit work.
pub struct FeedItem {
    pub chapter: Option<String>,
}

/// Reads the latest published unit out of a feed page that was
/// requested in descending unit order with a single-row limit, so the
/// first row is the latest release.
///
/// An empty page means no release exists in the requested language:
/// `Ok(None)`, not an error. A row without a unit-number field is a
/// single-unit work and yields exactly one. A malformed unit number is
/// a schema violation.
pub fn mangadex_latest_chapter(items: &Vec<FeedItem>) -> (r: Result<Option<UnitNumber>, ApiError>)
    ensures
        items@.len() == 0 ==> (r matches Ok(latest) && latest is None),
        items@.len() > 0 ==> match items@[0].chapter {
            None => (r matches Ok(latest) && latest matches Some(u) && u.whole == 1 && u.frac@
                == Seq::<u8>::empty()),
            Some(text) => {
                if valid_unit_seq(text@) {
                    (r matches Ok(latest) && latest matches Some(u) && u.whole == digits_value(
                        whole_part(text@),
                    ) && u.frac@ == digit_bytes(frac_part(text@)))
                } else {
                    (r matches Err(e) && e == ApiError::Decode)
                }
            },
        },
        match r {
            Ok(Some(u)) => u.wf(),
            _ => true,
        },
{
    if items.len() == 0 {
        return Ok(None);
    }
    match &items[0].chapter {
        None => Ok(Some(UnitNumber::single_unit())),
        Some(text) => match parse_unit_number(text.as_str()) {
            None => Err(ApiError::Decode),
            Some(u) => Ok(Some(u)),
        },
    }
}

} // verus!
