//! Laws that relate several parts of the client, proved once and for all
//! inputs: order and length preservation when listing, and the round trip of
//! the add-version request body.

use vstd::prelude::*;

verus! {

use crate::json::{SpecJson, jser, sp_doc, lemma_doc_round_trip};
use crate::model::{dec_template, dec_templates_list, req_str, req_u32, obj_get, obj_count};
use crate::ops::add_version_body;

/// Decoding a template array keeps its length and its order: the result has
/// one entry per array element, and the entry at each position is the decoded
/// record of the element at that same position.
pub proof fn lemma_list_preserves_length_and_order(l: Seq<SpecJson>)
    ensures
        dec_templates_list(l) matches Some(ts) ==> ts.len() == l.len() && forall|i: int|
            0 <= i < l.len() ==> dec_template(#[trigger] l[i]) == Some(ts[i]),
    decreases l.len(),
{
    if l.len() > 0 {
        lemma_list_preserves_length_and_order(l.drop_first());
        if dec_templates_list(l) is Some {
            let ts = dec_templates_list(l)->0;
            let tail = dec_templates_list(l.drop_first())->0;
            assert forall|i: int| 0 <= i < l.len() implies dec_template(#[trigger] l[i])
                == Some(ts[i]) by {
                if i > 0 {
                    assert(l.drop_first()[i - 1] == l[i]);
                    assert(ts[i] == tail[i - 1]);
                }
            }
        }
    }
}

/// Serializing the add-version body and parsing the result back yields the
/// body unchanged; in particular the `template_id`, `active` and `subject`
/// members read back exactly as they were written.
pub proof fn lemma_add_version_round_trip(template_id: Seq<char>)
    ensures
        sp_doc(jser(add_version_body(template_id))) == Some(add_version_body(template_id)),
        req_str(add_version_body(template_id)->Obj_0, "template_id"@) == Some(template_id),
        req_u32(add_version_body(template_id)->Obj_0, "active"@) == Some(1u32),
        req_str(add_version_body(template_id)->Obj_0, "subject"@) == Some("my subject"@),
{
    lemma_doc_round_trip(add_version_body(template_id));
    let ms = add_version_body(template_id)->Obj_0;
    reveal_strlit("template_id");
    reveal_strlit("active");
    reveal_strlit("name");
    reveal_strlit("html_content");
    reveal_strlit("plain_content");
    reveal_strlit("subject");
    assert(ms[0].0 == "template_id"@);
    assert(obj_get(ms, "template_id"@) == Some(SpecJson::Str(template_id)));
    assert("template_id"@.len() == 11 && "active"@.len() == 6 && "name"@.len() == 4
        && "html_content"@.len() == 12 && "plain_content"@.len() == 13 && "subject"@.len() == 7);
    assert(ms.drop_first()[0] == ms[1]);
    assert(obj_get(ms, "active"@) == obj_get(ms.drop_first(), "active"@));
    assert(obj_get(ms.drop_first(), "active"@) == Some(SpecJson::UInt(1)));
    let m2 = ms.drop_first();
    let m3 = m2.drop_first();
    let m4 = m3.drop_first();
    let m5 = m4.drop_first();
    let m6 = m5.drop_first();
    assert(m2[0] == ms[1] && m3[0] == ms[2] && m4[0] == ms[3] && m5[0] == ms[4] && m6[0]
        == ms[5]);
    assert(obj_get(ms, "subject"@) == obj_get(m2, "subject"@));
    assert(obj_get(m2, "subject"@) == obj_get(m3, "subject"@));
    assert(obj_get(m3, "subject"@) == obj_get(m4, "subject"@));
    assert(obj_get(m4, "subject"@) == obj_get(m5, "subject"@));
    assert(obj_get(m5, "subject"@) == obj_get(m6, "subject"@));
    assert(m6[0].0 == "subject"@);
    assert(obj_get(m6, "subject"@) == Some(SpecJson::Str("my subject"@)));
    let m7 = m6.drop_first();
    assert(m7.len() == 0);
    assert(obj_count(m7, "template_id"@) == 0 && obj_count(m7, "active"@) == 0 && obj_count(
        m7,
        "subject"@,
    ) == 0);
    assert(obj_count(m6, "template_id"@) == 0 && obj_count(m6, "active"@) == 0 && obj_count(
        m6,
        "subject"@,
    ) == 1);
    assert(obj_count(m5, "template_id"@) == 0 && obj_count(m5, "active"@) == 0 && obj_count(
        m5,
        "subject"@,
    ) == 1);
    assert(obj_count(m4, "template_id"@) == 0 && obj_count(m4, "active"@) == 0 && obj_count(
        m4,
        "subject"@,
    ) == 1);
    assert(obj_count(m3, "template_id"@) == 0 && obj_count(m3, "active"@) == 0 && obj_count(
        m3,
        "subject"@,
    ) == 1);
    assert(obj_count(m2, "template_id"@) == 0 && obj_count(m2, "active"@) == 1 && obj_count(
        m2,
        "subject"@,
    ) == 1);
    assert(obj_count(ms, "template_id"@) == 1 && obj_count(ms, "active"@) == 1 && obj_count(
        ms,
        "subject"@,
    ) == 1);
}

} // verus!
