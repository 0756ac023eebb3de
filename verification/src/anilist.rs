//! The progress-tracking side of the pipeline: the shape of a user's
//! reading list as the progress service's query endpoint returns it.
//!
//! The service answers one structured query with the complete
//! collection — no pagination — nested as lists of entries, each entry
//! carrying the recorded progress and the tracked work's id and
//! romanized title.

use vstd::prelude::*;

verus! {

/// The title of a tracked work, in its romanized form.
pub struct MediaTitle {
    pub romaji: String,
}

/// A tracked work: its id on the progress-tracking service — the id
/// that catalog cross-reference links name — and its title.
pub struct Media {
    pub id: u64,
    pub title: MediaTitle,
}

/// One reading-list entry: a tracked work and the number of units the
/// user has read of it. The recorded progress is unsigned: it is never
/// negative.
pub struct MediaList {
    pub progress: u16,
    pub media: Media,
}

/// One reading list: its entries, in the order the service returned
/// them.
pub struct MediaEntries {
    pub entries: Vec<MediaList>,
}

/// The user's reading lists, in the order the service returned them.
pub struct MediaLists {
    pub lists: Vec<MediaEntries>,
}

/// The payload of a progress-service response.
pub struct AniListData {
    pub media_list_collection: MediaLists,
}

/// A whole progress-service response.
pub struct GraphQLResponse {
    pub data: AniListData,
}

} // verus!
