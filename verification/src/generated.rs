//! Generic playlist actions shared by the tools: naming a new `Utilify: …`
//! playlist and checking what is asked of it.
use vstd::prelude::*;
use vstd::string::StringExecFns;

use crate::error::AppError;
use crate::text::{
    chars_of, concat_chars, lemma_trim_fixed, lemma_trim_shape, starts_with, starts_with_chars, string_from_chars, trim,
    trim_chars,
};

verus! {

pub const GENERATED_PREFIX: &'static str = "Utilify: ";

#[derive(Debug, Clone)]
pub struct GeneratedPlaylist {
    pub id: String,
    pub name: String,
    /// Tracks actually in the playlist after writing (read back).
    pub track_count: usize,
    /// Tracks we asked Spotify to add.
    pub requested: usize,
}

pub open spec fn generated_name_spec(description: Seq<char>) -> Seq<char> {
    let d = trim(description);
    if starts_with(d, "Utilify:"@) {
        d
    } else {
        "Utilify: "@ + d
    }
}

/// A generated name carries the prefix once, has no surrounding blanks, and
/// naming it again changes nothing, whenever the description is not blank.
pub proof fn generated_names_are_stable(description: Seq<char>)
    requires
        trim(description).len() > 0,
    ensures
        starts_with(generated_name_spec(description), "Utilify:"@),
        trim(generated_name_spec(description)) == generated_name_spec(description),
        generated_name_spec(generated_name_spec(description)) == generated_name_spec(description),
{
    reveal_strlit("Utilify:");
    reveal_strlit("Utilify: ");
    let d = trim(description);
    lemma_trim_shape(description);
    let r = generated_name_spec(description);
    if starts_with(d, "Utilify:"@) {
        lemma_trim_fixed(d);
    } else {
        let p = "Utilify: "@;
        assert(r == p + d);
        assert(r[0] == 'U');
        assert(r.last() == d.last());
        lemma_trim_fixed(r);
        assert(r.subrange(0, 8) =~= "Utilify:"@);
    }
}

/// `Utilify: {description}`, unless the description already carries the prefix.
pub fn generated_name(description: &str) -> (r: String)
    ensures
        r@ == generated_name_spec(description@),
{
    let d = trim_chars(&chars_of(description));
    if starts_with_chars(&d, &chars_of("Utilify:")) {
        string_from_chars(d.as_slice())
    } else {
        let all = concat_chars(&chars_of(GENERATED_PREFIX), &d);
        string_from_chars(all.as_slice())
    }
}

/// What creating a playlist from `uris` needs: some tracks and a name.
pub fn check_new_playlist(description: &str, uri_count: usize) -> (r: Result<(), AppError>)
    ensures
        uri_count == 0 ==> r matches Err(AppError::EmptyPlaylist),
        uri_count > 0 && trim(description@).len() == 0 ==> (r matches Err(AppError::Other(m))
            && m@ == "Give the new playlist a name."@),
        r is Ok <==> uri_count > 0 && trim(description@).len() > 0,
{
    if uri_count == 0 {
        return Err(AppError::EmptyPlaylist);
    }
    if trim_chars(&chars_of(description)).len() == 0 {
        return Err(AppError::Other(String::from_str("Give the new playlist a name.")));
    }
    Ok(())
}

} // verus!
