use vstd::prelude::*;

use crate::errors::Sbv2CoreError;
use crate::text::chars_of;

verus! {

#[verifier::external_type_specification]
#[verifier::external_body]
pub struct ExTokenizer(tokenizers::Tokenizer);

/// Relies on tokenizers' `Tokenizer::encode` without special tokens, and the encoding's
/// `get_ids` and `get_attention_mask`; the error is kept as its message.
#[verifier::external_body]
fn encode_char(tokenizer: &tokenizers::Tokenizer, c: char) -> (r: Result<(Vec<i64>, Vec<i64>), String>) {
    match tokenizer.encode(c.to_string(), false) {
        Ok(token) => Ok((
            token.get_ids().iter().map(|&x| x as i64).collect(),
            token.get_attention_mask().iter().map(|&x| x as i64).collect(),
        )),
        Err(e) => Err(e.to_string()),
    }
}

fn extend_from(dst: &mut Vec<i64>, src: &Vec<i64>)
    ensures
        final(dst)@ == old(dst)@ + src@,
{
    let mut i: usize = 0;
    let ghost start = dst@;
    while i < src.len()
        invariant
            i <= src@.len(),
            dst@ == start + src@.subrange(0, i as int),
        decreases src@.len() - i,
    {
        dst.push(src[i]);
        i = i + 1;
        assert(dst@ =~= start + src@.subrange(0, i as int));
    }
    assert(src@.subrange(0, i as int) =~= src@);
}

/// Token ids and attention mask for a text, each character encoded on its own, framed by
/// the start token 1 and the end token 2 (mask 1 at both ends).
pub fn tokenize(text: &str, tokenizer: &tokenizers::Tokenizer) -> (r: Result<(Vec<i64>, Vec<i64>), Sbv2CoreError>)
    ensures
        r is Ok ==> {
            let (ids, mask) = r->Ok_0;
            &&& ids@.len() >= 2 && mask@.len() >= 2
            &&& ids@[0] == 1 && ids@.last() == 2
            &&& mask@[0] == 1 && mask@.last() == 1
        },
        r is Err ==> r->Err_0 is TokenizersError,
        text@.len() == 0 ==> r is Ok && r->Ok_0.0@ == seq![1i64, 2i64] && r->Ok_0.1@ == seq![1i64, 1i64],
{
    let mut token_ids: Vec<i64> = Vec::new();
    let mut attention_masks: Vec<i64> = Vec::new();
    token_ids.push(1);
    attention_masks.push(1);
    assert(token_ids@ =~= seq![1i64]);
    assert(attention_masks@ =~= seq![1i64]);
    let cs = chars_of(text);
    let mut i: usize = 0;
    while i < cs.len()
        invariant
            i <= cs@.len(),
            token_ids@.len() >= 1 && token_ids@[0] == 1,
            attention_masks@.len() >= 1 && attention_masks@[0] == 1,
            cs@ == text@,
            cs@.len() == 0 ==> token_ids@ == seq![1i64] && attention_masks@ == seq![1i64],
        decreases cs@.len() - i,
    {
        match encode_char(tokenizer, cs[i]) {
            Ok((ids, mask)) => {
                extend_from(&mut token_ids, &ids);
                extend_from(&mut attention_masks, &mask);
            },
            Err(e) => {
                return Err(Sbv2CoreError::TokenizersError(e));
            },
        }
        i = i + 1;
    }
    token_ids.push(2);
    attention_masks.push(1);
    proof {
        if text@.len() == 0 {
            assert(token_ids@ =~= seq![1i64, 2i64]);
            assert(attention_masks@ =~= seq![1i64, 1i64]);
        }
    }
    Ok((token_ids, attention_masks))
}

} // verus!
