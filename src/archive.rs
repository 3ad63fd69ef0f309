use vstd::prelude::*;

use crate::errors::Sbv2CoreError;

verus! {

#[verifier::external_type_specification]
#[verifier::external_body]
pub struct ExIoError(std::io::Error);

/// What a zstd stream decompresses to.
pub uninterp spec fn zstd_decoded(b: Seq<u8>) -> Seq<u8>;

/// Whether a byte string is a zstd stream that decompresses without error.
pub uninterp spec fn zstd_ok(b: Seq<u8>) -> bool;

/// Whether a byte string is a tar archive whose entry list can be opened and whose readable
/// entries can be read to the end.
pub uninterp spec fn tar_ok(b: Seq<u8>) -> bool;

/// The members of a tar archive, each as its path and contents, in archive order, up to the
/// first entry that cannot be read.
pub uninterp spec fn tar_members(b: Seq<u8>) -> Seq<(Seq<char>, Seq<u8>)>;

/// Relies on zstd's `decode_all`: on success, the whole decompressed stream.
#[verifier::external_body]
fn decompress(bytes: &[u8]) -> (r: Result<Vec<u8>, std::io::Error>)
    ensures
        r is Ok <==> zstd_ok(bytes@),
        r is Ok ==> r->Ok_0@ == zstd_decoded(bytes@),
{
    zstd::decode_all(std::io::Cursor::new(bytes))
}

/// Relies on tar's `Archive::entries`, `Entry::path_bytes` and the entries' `Read`: on
/// success, every readable member's path (decoded lossily) and contents, in order.
#[verifier::external_body]
fn archive_members(bytes: &[u8]) -> (r: Result<Vec<(String, Vec<u8>)>, std::io::Error>)
    ensures
        r is Ok <==> tar_ok(bytes@),
        r is Ok ==> r->Ok_0@.map_values(|m: (String, Vec<u8>)| (m.0@, m.1@)) == tar_members(bytes@),
{
    let mut archive = tar::Archive::new(std::io::Cursor::new(bytes));
    let mut members = Vec::new();
    for entry in archive.entries()? {
        let Ok(mut e) = entry else { break };
        let mut data = Vec::new();
        std::io::Read::read_to_end(&mut e, &mut data)?;
        members.push((String::from_utf8_lossy(&e.path_bytes()).to_string(), data));
    }
    Ok(members)
}

pub open spec fn model_member_name() -> Seq<char> {
    seq!['m', 'o', 'd', 'e', 'l', '.', 'o', 'n', 'n', 'x']
}

pub open spec fn style_member_name() -> Seq<char> {
    seq!['s', 't', 'y', 'l', 'e', '_', 'v', 'e', 'c', 't', 'o', 'r', 's', '.', 'j', 's', 'o', 'n']
}

/// The contents of the last member with this path, if any.
pub open spec fn last_member(members: Seq<(Seq<char>, Seq<u8>)>, name: Seq<char>) -> Option<Seq<u8>>
    decreases members.len(),
{
    if members.len() == 0 {
        None
    } else if members.last().0 == name {
        Some(members.last().1)
    } else {
        last_member(members.drop_last(), name)
    }
}

/// The message of the member-missing error for the given presence of the two members.
pub open spec fn missing_message(has_model: bool, has_style: bool) -> Seq<char> {
    if !has_model && has_style {
        "vits2 not found"@
    } else if has_model && !has_style {
        "style_vectors not found"@
    } else {
        "vits2, style_vectors not found"@
    }
}

pub open spec fn member_view(m: (String, Vec<u8>)) -> (Seq<char>, Seq<u8>) {
    (m.0@, m.1@)
}

fn find_last(members: &Vec<(String, Vec<u8>)>, name: &str) -> (r: Option<usize>)
    ensures
        ({
            let mv = members@.map_values(|m: (String, Vec<u8>)| member_view(m));
            &&& r is Some <==> last_member(mv, name@) is Some
            &&& r is Some ==> r->0 < members@.len() && members@[r->0 as int].1@ == last_member(
                mv,
                name@,
            )->0
        }),
{
    let ghost mv = members@.map_values(|m: (String, Vec<u8>)| member_view(m));
    let target = crate::text::chars_of(name);
    let mut i: usize = members.len();
    assert(mv.subrange(0, i as int) =~= mv);
    while i > 0
        invariant
            mv == members@.map_values(|m: (String, Vec<u8>)| member_view(m)),
            i <= members@.len(),
            target@ == name@,
            last_member(mv, name@) == last_member(mv.subrange(0, i as int), name@),
        decreases i,
    {
        let path = crate::text::chars_of(members[i - 1].0.as_str());
        proof {
            assert(mv.subrange(0, i as int).drop_last() =~= mv.subrange(0, i - 1));
            assert(mv.subrange(0, i as int).last() == member_view(members@[i - 1]));
        }
        if crate::text::chars_equal(&path, &target) {
            return Some(i - 1);
        }
        i = i - 1;
    }
    None
}

/// Picks the model weights and the style vectors out of an archive's members (the last of
/// each name wins); a missing member is reported by name.
pub fn select_members(members: &Vec<(String, Vec<u8>)>) -> (r: Result<(Vec<u8>, Vec<u8>), Sbv2CoreError>)
    ensures
        ({
            let mv = members@.map_values(|m: (String, Vec<u8>)| member_view(m));
            let model = last_member(mv, model_member_name());
            let style = last_member(mv, style_member_name());
            &&& r is Ok <==> (model is Some && style is Some)
            &&& r is Ok ==> r->Ok_0.0@ == model->0 && r->Ok_0.1@ == style->0
            &&& r is Err ==> r->Err_0 is ModelNotFoundError && r->Err_0->ModelNotFoundError_0@
                == missing_message(model is Some, style is Some)
        }),
{
    proof {
        reveal_strlit("model.onnx");
        reveal_strlit("style_vectors.json");
        reveal_strlit("vits2 not found");
        reveal_strlit("style_vectors not found");
        reveal_strlit("vits2, style_vectors not found");
    }
    let model = find_last(members, "model.onnx");
    let style = find_last(members, "style_vectors.json");
    assert("model.onnx"@ =~= model_member_name());
    assert("style_vectors.json"@ =~= style_member_name());
    match (model, style) {
        (Some(m), Some(s)) => Ok((members[m].1.clone(), members[s].1.clone())),
        (None, Some(_)) => Err(Sbv2CoreError::ModelNotFoundError("vits2 not found".to_owned())),
        (Some(_), None) => Err(Sbv2CoreError::ModelNotFoundError("style_vectors not found".to_owned())),
        (None, None) => Err(
            Sbv2CoreError::ModelNotFoundError("vits2, style_vectors not found".to_owned()),
        ),
    }
}

/// Unpacks a voice package: a zstd-compressed tar holding `model.onnx` and
/// `style_vectors.json`. Returns the weight bytes and the style-vector bytes.
pub fn read_sbv2file(sbv2file_bytes: &[u8]) -> (r: Result<(Vec<u8>, Vec<u8>), Sbv2CoreError>)
    ensures
        ({
            let unpacked = zstd_ok(sbv2file_bytes@) && tar_ok(zstd_decoded(sbv2file_bytes@));
            let mv = tar_members(zstd_decoded(sbv2file_bytes@));
            let model = last_member(mv, model_member_name());
            let style = last_member(mv, style_member_name());
            &&& (r is Err && r->Err_0 is ArchiveError) <==> !unpacked
            &&& unpacked ==> (r is Ok <==> (model is Some && style is Some))
            &&& r is Ok ==> r->Ok_0.0@ == model->0 && r->Ok_0.1@ == style->0
            &&& r is Err ==> r->Err_0 is ArchiveError || (r->Err_0 is ModelNotFoundError
                && r->Err_0->ModelNotFoundError_0@ == missing_message(model is Some, style is Some))
        }),
{
    let decoded = match decompress(sbv2file_bytes) {
        Ok(d) => d,
        Err(_) => {
            return Err(Sbv2CoreError::ArchiveError("zstd".to_owned()));
        },
    };
    let members = match archive_members(decoded.as_slice()) {
        Ok(m) => m,
        Err(_) => {
            return Err(Sbv2CoreError::ArchiveError("tar".to_owned()));
        },
    };
    proof {
        assert(members@.map_values(|m: (String, Vec<u8>)| member_view(m)) =~= members@.map_values(
            |m: (String, Vec<u8>)| (m.0@, m.1@),
        ));
    }
    select_members(&members)
}

} // verus!
