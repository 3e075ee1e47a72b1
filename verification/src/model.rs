//! The records the template API exchanges, their mathematical models, and the
//! verified decoding of each record from a parsed JSON document.
//!
//! Decoding follows the usual lenient convention: unknown members are ignored,
//! a missing or null member is accepted for an optional field, and a missing
//! member, one of the wrong shape, or a recognized member that appears more
//! than once is an error.

use vstd::prelude::*;

verus! {

use vstd::string::StringExecFns;
use crate::json::{SpecJson, JsonValue, jv_view, jv_view_members, lemma_view_members_index};

/// A reusable email layout owned by the provider.
#[derive(Clone, Debug)]
pub struct Template {
    /// Identifier assigned by the server.
    pub id: String,
    /// Display name.
    pub name: String,
    /// Generation tag.
    pub generation: Option<String>,
    /// Last update timestamp.
    pub updated_at: Option<String>,
    /// Short summaries of the template's versions, in server order.
    pub versions: Vec<TemplateShortVersion>,
}

/// A version summary embedded in a [`Template`].
#[derive(Clone, Debug)]
pub struct TemplateShortVersion {
    /// Identifier assigned by the server.
    pub id: String,
    /// Display name.
    pub name: String,
    /// Identifier of the owning template.
    pub template_id: String,
    /// Numeric active flag, kept as the server sends it.
    pub active: u32,
    /// Editor identifier.
    pub editor: String,
    /// Subject line.
    pub subject: String,
    /// Last update timestamp.
    pub updated_at: String,
}

/// One full revision of a template's content.
#[derive(Clone, Debug)]
pub struct TemplateVersion {
    /// Identifier assigned by the server.
    pub id: String,
    /// Identifier of the owning template.
    pub template_id: String,
    /// Last update timestamp.
    pub updated_at: Option<String>,
    /// Thumbnail location.
    pub thumbnail_url: Option<String>,
    /// Identifier of the user that made the revision.
    pub user_id: Option<u32>,
    /// Numeric active flag, kept as the server sends it.
    pub active: u32,
    /// Display name.
    pub name: String,
    /// HTML body.
    pub html_content: Option<String>,
    /// Plain-text body.
    pub plain_content: Option<String>,
    /// Whether the plain body is derived from the HTML body.
    pub generate_plain_content: Option<bool>,
    /// Subject line.
    pub subject: String,
    /// Editor identifier.
    pub editor: String,
    /// Test data blob.
    pub test_data: Option<String>,
    /// Validation warnings the server attached to the version.
    pub warnings: Option<Vec<WarningMessage>>,
}

/// A single validation warning attached to a version.
#[derive(Clone, Debug)]
pub struct WarningMessage {
    /// The warning's text.
    pub message: String,
}

/// Model of a [`TemplateShortVersion`].
pub struct SpecShortVersion {
    pub id: Seq<char>,
    pub name: Seq<char>,
    pub template_id: Seq<char>,
    pub active: u32,
    pub editor: Seq<char>,
    pub subject: Seq<char>,
    pub updated_at: Seq<char>,
}

/// Model of a [`Template`].
pub struct SpecTemplate {
    pub id: Seq<char>,
    pub name: Seq<char>,
    pub generation: Option<Seq<char>>,
    pub updated_at: Option<Seq<char>>,
    pub versions: Seq<SpecShortVersion>,
}

/// Model of a [`TemplateVersion`].
pub struct SpecTemplateVersion {
    pub id: Seq<char>,
    pub template_id: Seq<char>,
    pub updated_at: Option<Seq<char>>,
    pub thumbnail_url: Option<Seq<char>>,
    pub user_id: Option<u32>,
    pub active: u32,
    pub name: Seq<char>,
    pub html_content: Option<Seq<char>>,
    pub plain_content: Option<Seq<char>>,
    pub generate_plain_content: Option<bool>,
    pub subject: Seq<char>,
    pub editor: Seq<char>,
    pub test_data: Option<Seq<char>>,
    pub warnings: Option<Seq<Seq<char>>>,
}

/// The model of an optional string.
pub open spec fn opt_view(o: Option<String>) -> Option<Seq<char>> {
    match o {
        Some(s) => Some(s@),
        None => None,
    }
}

impl View for TemplateShortVersion {
    type V = SpecShortVersion;

    open spec fn view(&self) -> SpecShortVersion {
        SpecShortVersion {
            id: self.id@,
            name: self.name@,
            template_id: self.template_id@,
            active: self.active,
            editor: self.editor@,
            subject: self.subject@,
            updated_at: self.updated_at@,
        }
    }
}

impl View for Template {
    type V = SpecTemplate;

    open spec fn view(&self) -> SpecTemplate {
        SpecTemplate {
            id: self.id@,
            name: self.name@,
            generation: opt_view(self.generation),
            updated_at: opt_view(self.updated_at),
            versions: self.versions@.map_values(|v: TemplateShortVersion| v@),
        }
    }
}

impl View for WarningMessage {
    type V = Seq<char>;

    open spec fn view(&self) -> Seq<char> {
        self.message@
    }
}

impl View for TemplateVersion {
    type V = SpecTemplateVersion;

    open spec fn view(&self) -> SpecTemplateVersion {
        SpecTemplateVersion {
            id: self.id@,
            template_id: self.template_id@,
            updated_at: opt_view(self.updated_at),
            thumbnail_url: opt_view(self.thumbnail_url),
            user_id: self.user_id,
            active: self.active,
            name: self.name@,
            html_content: opt_view(self.html_content),
            plain_content: opt_view(self.plain_content),
            generate_plain_content: self.generate_plain_content,
            subject: self.subject@,
            editor: self.editor@,
            test_data: opt_view(self.test_data),
            warnings: match self.warnings {
                Some(ws) => Some(ws@.map_values(|w: WarningMessage| w@)),
                None => None,
            },
        }
    }
}

/// The value of the first member with the given key, if any.
pub open spec fn obj_get(ms: Seq<(Seq<char>, SpecJson)>, k: Seq<char>) -> Option<SpecJson>
    decreases ms.len(),
{
    if ms.len() == 0 {
        None
    } else if ms[0].0 == k {
        Some(ms[0].1)
    } else {
        obj_get(ms.drop_first(), k)
    }
}

/// How many members carry the given key. A recognized field that appears more
/// than once is a decode error, as it is for the upstream records.
pub open spec fn obj_count(ms: Seq<(Seq<char>, SpecJson)>, k: Seq<char>) -> nat
    decreases ms.len(),
{
    if ms.len() == 0 {
        0
    } else if ms[0].0 == k {
        1 + obj_count(ms.drop_first(), k)
    } else {
        obj_count(ms.drop_first(), k)
    }
}

/// A required string member: present exactly once, and a string.
pub open spec fn req_str(ms: Seq<(Seq<char>, SpecJson)>, k: Seq<char>) -> Option<Seq<char>> {
    if obj_count(ms, k) != 1 {
        None
    } else {
        match obj_get(ms, k) {
            Some(SpecJson::Str(s)) => Some(s),
            _ => None,
        }
    }
}

/// An optional string member: absent or null is `None`, a string is `Some`,
/// anything else — a wrong shape or a repeated key — is an error.
pub open spec fn opt_str(ms: Seq<(Seq<char>, SpecJson)>, k: Seq<char>) -> Option<
    Option<Seq<char>>,
> {
    if obj_count(ms, k) == 0 {
        Some(None)
    } else if obj_count(ms, k) != 1 {
        None
    } else {
        match obj_get(ms, k) {
            Some(SpecJson::Null) => Some(None),
            Some(SpecJson::Str(s)) => Some(Some(s)),
            _ => None,
        }
    }
}

/// A required unsigned member: present exactly once.
pub open spec fn req_u32(ms: Seq<(Seq<char>, SpecJson)>, k: Seq<char>) -> Option<u32> {
    if obj_count(ms, k) != 1 {
        None
    } else {
        match obj_get(ms, k) {
            Some(SpecJson::UInt(n)) => Some(n),
            _ => None,
        }
    }
}

/// An optional unsigned member.
pub open spec fn opt_u32(ms: Seq<(Seq<char>, SpecJson)>, k: Seq<char>) -> Option<Option<u32>> {
    if obj_count(ms, k) == 0 {
        Some(None)
    } else if obj_count(ms, k) != 1 {
        None
    } else {
        match obj_get(ms, k) {
            Some(SpecJson::Null) => Some(None),
            Some(SpecJson::UInt(n)) => Some(Some(n)),
            _ => None,
        }
    }
}

/// An optional boolean member.
pub open spec fn opt_bool(ms: Seq<(Seq<char>, SpecJson)>, k: Seq<char>) -> Option<Option<bool>> {
    if obj_count(ms, k) == 0 {
        Some(None)
    } else if obj_count(ms, k) != 1 {
        None
    } else {
        match obj_get(ms, k) {
            Some(SpecJson::Null) => Some(None),
            Some(SpecJson::Bool(b)) => Some(Some(b)),
            _ => None,
        }
    }
}

/// Decode a version summary.
pub open spec fn dec_short_version(j: SpecJson) -> Option<SpecShortVersion> {
    match j {
        SpecJson::Obj(ms) => {
            if req_str(ms, "id"@) is Some && req_str(ms, "name"@) is Some && req_str(
                ms,
                "template_id"@,
            ) is Some && req_u32(ms, "active"@) is Some && req_str(ms, "editor"@) is Some
                && req_str(ms, "subject"@) is Some && req_str(ms, "updated_at"@) is Some {
                Some(
                    SpecShortVersion {
                        id: req_str(ms, "id"@)->0,
                        name: req_str(ms, "name"@)->0,
                        template_id: req_str(ms, "template_id"@)->0,
                        active: req_u32(ms, "active"@)->0,
                        editor: req_str(ms, "editor"@)->0,
                        subject: req_str(ms, "subject"@)->0,
                        updated_at: req_str(ms, "updated_at"@)->0,
                    },
                )
            } else {
                None
            }
        }
        _ => None,
    }
}

/// Decode a list of version summaries; every element must decode.
pub open spec fn dec_short_versions(l: Seq<SpecJson>) -> Option<Seq<SpecShortVersion>>
    decreases l.len(),
{
    if l.len() == 0 {
        Some(Seq::empty())
    } else {
        match dec_short_version(l[0]) {
            Some(v) => match dec_short_versions(l.drop_first()) {
                Some(t) => Some(seq![v] + t),
                None => None,
            },
            None => None,
        }
    }
}

/// Decode a template record: `id` and `name` are required strings,
/// `generation` and `updated_at` optional strings, `versions` a required array
/// of version summaries.
pub open spec fn dec_template(j: SpecJson) -> Option<SpecTemplate> {
    match j {
        SpecJson::Obj(ms) => {
            match obj_get(ms, "versions"@) {
                Some(SpecJson::Arr(l)) => {
                    if obj_count(ms, "versions"@) == 1 && req_str(ms, "id"@) is Some && req_str(
                        ms,
                        "name"@,
                    ) is Some && opt_str(ms, "generation"@) is Some && opt_str(
                        ms,
                        "updated_at"@,
                    ) is Some && dec_short_versions(l) is Some {
                        Some(
                            SpecTemplate {
                                id: req_str(ms, "id"@)->0,
                                name: req_str(ms, "name"@)->0,
                                generation: opt_str(ms, "generation"@)->0,
                                updated_at: opt_str(ms, "updated_at"@)->0,
                                versions: dec_short_versions(l)->0,
                            },
                        )
                    } else {
                        None
                    }
                }
                _ => None,
            }
        }
        _ => None,
    }
}

/// Decode a list of templates; every element must decode.
pub open spec fn dec_templates_list(l: Seq<SpecJson>) -> Option<Seq<SpecTemplate>>
    decreases l.len(),
{
    if l.len() == 0 {
        Some(Seq::empty())
    } else {
        match dec_template(l[0]) {
            Some(v) => match dec_templates_list(l.drop_first()) {
                Some(t) => Some(seq![v] + t),
                None => None,
            },
            None => None,
        }
    }
}

/// Decode the collection wrapper `{templates: [...]}`.
pub open spec fn dec_templates(j: SpecJson) -> Option<Seq<SpecTemplate>> {
    match j {
        SpecJson::Obj(ms) => match obj_get(ms, "templates"@) {
            Some(SpecJson::Arr(l)) => if obj_count(ms, "templates"@) == 1 {
                dec_templates_list(l)
            } else {
                None
            },
            _ => None,
        },
        _ => None,
    }
}

/// Decode one warning: an object with a required `message` string.
pub open spec fn dec_warning(j: SpecJson) -> Option<Seq<char>> {
    match j {
        SpecJson::Obj(ms) => req_str(ms, "message"@),
        _ => None,
    }
}

/// Decode a list of warnings; every element must decode.
pub open spec fn dec_warnings(l: Seq<SpecJson>) -> Option<Seq<Seq<char>>>
    decreases l.len(),
{
    if l.len() == 0 {
        Some(Seq::empty())
    } else {
        match dec_warning(l[0]) {
            Some(v) => match dec_warnings(l.drop_first()) {
                Some(t) => Some(seq![v] + t),
                None => None,
            },
            None => None,
        }
    }
}

/// The decoded `warnings` member: absent or null is `None`, an array whose
/// elements all decode is `Some`, anything else is an error.
pub open spec fn opt_warnings(ms: Seq<(Seq<char>, SpecJson)>) -> Option<Option<Seq<Seq<char>>>> {
    if obj_count(ms, "warnings"@) == 0 {
        Some(None)
    } else if obj_count(ms, "warnings"@) != 1 {
        None
    } else {
        match obj_get(ms, "warnings"@) {
            Some(SpecJson::Null) => Some(None),
            Some(SpecJson::Arr(l)) => match dec_warnings(l) {
                Some(ws) => Some(Some(ws)),
                None => None,
            },
            _ => None,
        }
    }
}

/// Decode a full template version record.
pub open spec fn dec_template_version(j: SpecJson) -> Option<SpecTemplateVersion> {
    match j {
        SpecJson::Obj(ms) => {
            if req_str(ms, "id"@) is Some && req_str(ms, "template_id"@) is Some && opt_str(
                ms,
                "updated_at"@,
            ) is Some && opt_str(ms, "thumbnail_url"@) is Some && opt_u32(ms, "user_id"@) is Some
                && req_u32(ms, "active"@) is Some && req_str(ms, "name"@) is Some && opt_str(
                ms,
                "html_content"@,
            ) is Some && opt_str(ms, "plain_content"@) is Some && opt_bool(
                ms,
                "generate_plain_content"@,
            ) is Some && req_str(ms, "subject"@) is Some && req_str(ms, "editor"@) is Some
                && opt_str(ms, "test_data"@) is Some && opt_warnings(ms) is Some {
                Some(
                    SpecTemplateVersion {
                        id: req_str(ms, "id"@)->0,
                        template_id: req_str(ms, "template_id"@)->0,
                        updated_at: opt_str(ms, "updated_at"@)->0,
                        thumbnail_url: opt_str(ms, "thumbnail_url"@)->0,
                        user_id: opt_u32(ms, "user_id"@)->0,
                        active: req_u32(ms, "active"@)->0,
                        name: req_str(ms, "name"@)->0,
                        html_content: opt_str(ms, "html_content"@)->0,
                        plain_content: opt_str(ms, "plain_content"@)->0,
                        generate_plain_content: opt_bool(ms, "generate_plain_content"@)->0,
                        subject: req_str(ms, "subject"@)->0,
                        editor: req_str(ms, "editor"@)->0,
                        test_data: opt_str(ms, "test_data"@)->0,
                        warnings: opt_warnings(ms)->0,
                    },
                )
            } else {
                None
            }
        }
        _ => None,
    }
}

/// The models of a sequence of version summaries.
pub open spec fn sv_views(s: Seq<TemplateShortVersion>) -> Seq<SpecShortVersion> {
    s.map_values(|v: TemplateShortVersion| v@)
}

/// The models of a sequence of templates.
pub open spec fn tpl_views(s: Seq<Template>) -> Seq<SpecTemplate> {
    s.map_values(|t: Template| t@)
}

/// The models of a sequence of warnings.
pub open spec fn warn_views(s: Seq<WarningMessage>) -> Seq<Seq<char>> {
    s.map_values(|w: WarningMessage| w@)
}

/// The member with the given key, when it occurs exactly once: `None` when
/// the key repeats, `Some(None)` when it is absent.
fn obj_get_once<'a>(ms: &'a Vec<(String, JsonValue)>, k: &String) -> (r: Option<
    Option<&'a JsonValue>,
>)
    ensures
        r is None ==> obj_count(jv_view_members(ms@), k@) >= 2,
        r matches Some(o) && o is None ==> obj_count(jv_view_members(ms@), k@) == 0,
        r matches Some(Some(v)) ==> obj_count(jv_view_members(ms@), k@) == 1 && obj_get(
            jv_view_members(ms@),
            k@,
        ) == Some(v@),
{
    let ghost l = jv_view_members(ms@);
    proof {
        lemma_view_members_index(ms@);
    }
    let n = ms.len();
    let mut i: usize = 0;
    let mut found: Option<usize> = None;
    proof {
        assert(l.skip(0) =~= l);
    }
    while i < n
        invariant
            i <= n,
            n == ms@.len(),
            l == jv_view_members(ms@),
            l.len() == n,
            forall|q: int| 0 <= q < n ==> l[q] == ((#[trigger] ms@[q]).0@, jv_view(ms@[q].1)),
            found is None ==> obj_count(l, k@) == obj_count(l.skip(i as int), k@) && obj_get(
                l,
                k@,
            ) == obj_get(l.skip(i as int), k@),
            found matches Some(fi) ==> fi < i && obj_count(l, k@) == 1 + obj_count(
                l.skip(i as int),
                k@,
            ) && obj_get(l, k@) == Some(l[fi as int].1) && l[fi as int].0 == k@,
        decreases n - i,
    {
        proof {
            assert(l.skip(i as int)[0] == l[i as int]);
            assert(l.skip(i as int).drop_first() =~= l.skip(i as int + 1));
        }
        if ms[i].0 == *k {
            match found {
                Some(_) => {
                    proof {
                        assert(obj_count(l.skip(i as int), k@) >= 1);
                    }
                    return None;
                }
                None => {
                    found = Some(i);
                }
            }
        }
        i += 1;
    }
    proof {
        assert(l.skip(n as int).len() == 0);
    }
    match found {
        Some(fi) => Some(Some(&ms[fi].1)),
        None => Some(None),
    }
}

/// A required string member, copied out.
fn get_req_str(ms: &Vec<(String, JsonValue)>, k: &String) -> (r: Option<String>)
    ensures
        r matches Some(s) ==> req_str(jv_view_members(ms@), k@) == Some(s@),
        r is None ==> req_str(jv_view_members(ms@), k@) is None,
{
    match obj_get_once(ms, k) {
        Some(Some(v)) => match v {
            JsonValue::Str(s) => Some(s.clone()),
            _ => None,
        },
        _ => None,
    }
}

/// An optional string member, copied out.
fn get_opt_str(ms: &Vec<(String, JsonValue)>, k: &String) -> (r: Option<Option<String>>)
    ensures
        r matches Some(o) ==> opt_str(jv_view_members(ms@), k@) == Some(opt_view(o)),
        r is None ==> opt_str(jv_view_members(ms@), k@) is None,
{
    match obj_get_once(ms, k) {
        Some(Some(v)) => match v {
            JsonValue::Str(s) => Some(Some(s.clone())),
            JsonValue::Null => Some(None),
            _ => None,
        },
        Some(None) => Some(None),
        None => None,
    }
}

/// A required unsigned member.
fn get_req_u32(ms: &Vec<(String, JsonValue)>, k: &String) -> (r: Option<u32>)
    ensures
        r matches Some(n) ==> req_u32(jv_view_members(ms@), k@) == Some(n),
        r is None ==> req_u32(jv_view_members(ms@), k@) is None,
{
    match obj_get_once(ms, k) {
        Some(Some(v)) => match v {
            JsonValue::UInt(n) => Some(*n),
            _ => None,
        },
        _ => None,
    }
}

/// An optional unsigned member.
fn get_opt_u32(ms: &Vec<(String, JsonValue)>, k: &String) -> (r: Option<Option<u32>>)
    ensures
        r matches Some(o) ==> opt_u32(jv_view_members(ms@), k@) == Some(o),
        r is None ==> opt_u32(jv_view_members(ms@), k@) is None,
{
    match obj_get_once(ms, k) {
        Some(Some(v)) => match v {
            JsonValue::UInt(n) => Some(Some(*n)),
            JsonValue::Null => Some(None),
            _ => None,
        },
        Some(None) => Some(None),
        None => None,
    }
}

/// An optional boolean member.
fn get_opt_bool(ms: &Vec<(String, JsonValue)>, k: &String) -> (r: Option<Option<bool>>)
    ensures
        r matches Some(o) ==> opt_bool(jv_view_members(ms@), k@) == Some(o),
        r is None ==> opt_bool(jv_view_members(ms@), k@) is None,
{
    match obj_get_once(ms, k) {
        Some(Some(v)) => match v {
            JsonValue::Bool(b) => Some(Some(*b)),
            JsonValue::Null => Some(None),
            _ => None,
        },
        Some(None) => Some(None),
        None => None,
    }
}

/// Decode a version summary from a parsed document.
pub fn short_version_from_json(v: &JsonValue) -> (r: Option<TemplateShortVersion>)
    ensures
        r matches Some(t) ==> dec_short_version(v@) == Some(t@),
        r is None ==> dec_short_version(v@) is None,
{
    let ms = match v {
        JsonValue::Obj(ms) => ms,
        _ => {
            return None;
        }
    };
    let id = match get_req_str(ms, &String::from_str("id")) {
        Some(s) => s,
        None => {
            return None;
        }
    };
    let name = match get_req_str(ms, &String::from_str("name")) {
        Some(s) => s,
        None => {
            return None;
        }
    };
    let template_id = match get_req_str(ms, &String::from_str("template_id")) {
        Some(s) => s,
        None => {
            return None;
        }
    };
    let active = match get_req_u32(ms, &String::from_str("active")) {
        Some(n) => n,
        None => {
            return None;
        }
    };
    let editor = match get_req_str(ms, &String::from_str("editor")) {
        Some(s) => s,
        None => {
            return None;
        }
    };
    let subject = match get_req_str(ms, &String::from_str("subject")) {
        Some(s) => s,
        None => {
            return None;
        }
    };
    let updated_at = match get_req_str(ms, &String::from_str("updated_at")) {
        Some(s) => s,
        None => {
            return None;
        }
    };
    Some(TemplateShortVersion { id, name, template_id, active, editor, subject, updated_at })
}

/// Decode a template record from a parsed document.
pub fn template_from_json(v: &JsonValue) -> (r: Option<Template>)
    ensures
        r matches Some(t) ==> dec_template(v@) == Some(t@),
        r is None ==> dec_template(v@) is None,
{
    let ms = match v {
        JsonValue::Obj(ms) => ms,
        _ => {
            return None;
        }
    };
    let els = match obj_get_once(ms, &String::from_str("versions")) {
        Some(Some(w)) => match w {
            JsonValue::Arr(els) => els,
            _ => {
                return None;
            }
        },
        _ => {
            return None;
        }
    };
    let ghost l = crate::json::jv_view_list(els@);
    proof {
        crate::json::lemma_view_list_index(els@);
    }
    let n = els.len();
    let mut versions: Vec<TemplateShortVersion> = Vec::new();
    let mut i: usize = 0;
    proof {
        assert(l.skip(0) =~= l);
        assert(sv_views(versions@) =~= Seq::<SpecShortVersion>::empty());
        if dec_short_versions(l) is Some {
            assert(sv_views(versions@) + dec_short_versions(l)->0
                =~= dec_short_versions(l)->0);
        }
    }
    while i < n
        invariant
            i <= n,
            n == els@.len(),
            l == crate::json::jv_view_list(els@),
            l.len() == n,
            forall|q: int| 0 <= q < n ==> l[q] == crate::json::jv_view(#[trigger] els@[q]),
            sv_views(versions@).len() == i,
            dec_short_versions(l.skip(i as int)) matches Some(t)
                ==> dec_short_versions(l) == Some(sv_views(versions@) + t),
            dec_short_versions(l.skip(i as int)) is None ==> dec_short_versions(l) is None,
            dec_short_versions(l) is None ==> dec_template(v@) is None,
        decreases n - i,
    {
        proof {
            assert(l.skip(i as int)[0] == l[i as int]);
            assert(l.skip(i as int).drop_first() =~= l.skip(i as int + 1));
        }
        match short_version_from_json(&els[i]) {
            Some(sv) => {
                let ghost pre = versions@;
                versions.push(sv);
                proof {
                    assert(sv_views(versions@) =~= sv_views(pre) + seq![sv@]);
                    if dec_short_versions(l.skip(i as int + 1)) is Some {
                        let t = dec_short_versions(l.skip(i as int + 1))->0;
                        assert(dec_short_versions(l.skip(i as int))
                            == Some(seq![sv@] + t));
                        assert(sv_views(pre) + (seq![sv@] + t)
                            =~= (sv_views(pre) + seq![sv@]) + t);
                    }
                }
            }
            None => {
                return None;
            }
        }
        i += 1;
    }
    proof {
        assert(l.skip(n as int).len() == 0);
        assert(dec_short_versions(l.skip(n as int)) == Some(Seq::<SpecShortVersion>::empty()));
        assert(sv_views(versions@) + Seq::<SpecShortVersion>::empty() =~= sv_views(versions@));
    }
    let id = match get_req_str(ms, &String::from_str("id")) {
        Some(s) => s,
        None => {
            return None;
        }
    };
    let name = match get_req_str(ms, &String::from_str("name")) {
        Some(s) => s,
        None => {
            return None;
        }
    };
    let generation = match get_opt_str(ms, &String::from_str("generation")) {
        Some(o) => o,
        None => {
            return None;
        }
    };
    let updated_at = match get_opt_str(ms, &String::from_str("updated_at")) {
        Some(o) => o,
        None => {
            return None;
        }
    };
    Some(Template { id, name, generation, updated_at, versions })
}

/// Decode the collection wrapper `{templates: [...]}` from a parsed document.
pub fn templates_from_json(v: &JsonValue) -> (r: Option<Vec<Template>>)
    ensures
        r matches Some(ts) ==> dec_templates(v@) == Some(tpl_views(ts@)),
        r is None ==> dec_templates(v@) is None,
{
    let ms = match v {
        JsonValue::Obj(ms) => ms,
        _ => {
            return None;
        }
    };
    let els = match obj_get_once(ms, &String::from_str("templates")) {
        Some(Some(w)) => match w {
            JsonValue::Arr(els) => els,
            _ => {
                return None;
            }
        },
        _ => {
            return None;
        }
    };
    let ghost l = crate::json::jv_view_list(els@);
    proof {
        crate::json::lemma_view_list_index(els@);
    }
    let n = els.len();
    let mut out: Vec<Template> = Vec::new();
    let mut i: usize = 0;
    proof {
        assert(l.skip(0) =~= l);
        assert(tpl_views(out@) =~= Seq::<SpecTemplate>::empty());
        if dec_templates_list(l) is Some {
            assert(tpl_views(out@) + dec_templates_list(l)->0 =~= dec_templates_list(l)->0);
        }
    }
    while i < n
        invariant
            i <= n,
            n == els@.len(),
            l == crate::json::jv_view_list(els@),
            l.len() == n,
            forall|q: int| 0 <= q < n ==> l[q] == crate::json::jv_view(#[trigger] els@[q]),
            tpl_views(out@).len() == i,
            dec_templates_list(l.skip(i as int)) matches Some(t)
                ==> dec_templates_list(l) == Some(tpl_views(out@) + t),
            dec_templates_list(l.skip(i as int)) is None ==> dec_templates_list(l) is None,
            dec_templates_list(l) is None ==> dec_templates(v@) is None,
        decreases n - i,
    {
        proof {
            assert(l.skip(i as int)[0] == l[i as int]);
            assert(l.skip(i as int).drop_first() =~= l.skip(i as int + 1));
        }
        match template_from_json(&els[i]) {
            Some(t) => {
                let ghost pre = out@;
                out.push(t);
                proof {
                    assert(tpl_views(out@) =~= tpl_views(pre) + seq![t@]);
                    if dec_templates_list(l.skip(i as int + 1)) is Some {
                        let rest = dec_templates_list(l.skip(i as int + 1))->0;
                        assert(dec_templates_list(l.skip(i as int))
                            == Some(seq![t@] + rest));
                        assert(tpl_views(pre) + (seq![t@] + rest)
                            =~= (tpl_views(pre) + seq![t@]) + rest);
                    }
                }
            }
            None => {
                return None;
            }
        }
        i += 1;
    }
    proof {
        assert(l.skip(n as int).len() == 0);
        assert(dec_templates_list(l.skip(n as int)) == Some(Seq::<SpecTemplate>::empty()));
        assert(tpl_views(out@) + Seq::<SpecTemplate>::empty() =~= tpl_views(out@));
    }
    Some(out)
}

/// Decode the `warnings` member of a version record.
fn warnings_from_obj(ms: &Vec<(String, JsonValue)>) -> (r: Option<Option<Vec<WarningMessage>>>)
    ensures
        r matches Some(Some(ws)) ==> opt_warnings(jv_view_members(ms@))
            == Some(Some(warn_views(ws@))),
        r matches Some(o) && o is None ==> opt_warnings(jv_view_members(ms@))
            == Some(None::<Seq<Seq<char>>>),
        r is None ==> opt_warnings(jv_view_members(ms@)) is None,
{
    let els = match obj_get_once(ms, &String::from_str("warnings")) {
        Some(Some(w)) => match w {
            JsonValue::Arr(els) => els,
            JsonValue::Null => {
                return Some(None);
            }
            _ => {
                return None;
            }
        },
        Some(None) => {
            return Some(None);
        }
        None => {
            return None;
        }
    };
    let ghost l = crate::json::jv_view_list(els@);
    proof {
        crate::json::lemma_view_list_index(els@);
    }
    let n = els.len();
    let mut out: Vec<WarningMessage> = Vec::new();
    let mut i: usize = 0;
    proof {
        assert(l.skip(0) =~= l);
        assert(warn_views(out@) =~= Seq::<Seq<char>>::empty());
        if dec_warnings(l) is Some {
            assert(warn_views(out@) + dec_warnings(l)->0 =~= dec_warnings(l)->0);
        }
    }
    while i < n
        invariant
            i <= n,
            n == els@.len(),
            l == crate::json::jv_view_list(els@),
            l.len() == n,
            forall|q: int| 0 <= q < n ==> l[q] == crate::json::jv_view(#[trigger] els@[q]),
            warn_views(out@).len() == i,
            dec_warnings(l.skip(i as int)) matches Some(t)
                ==> dec_warnings(l) == Some(warn_views(out@) + t),
            dec_warnings(l.skip(i as int)) is None ==> dec_warnings(l) is None,
            dec_warnings(l) is None ==> opt_warnings(jv_view_members(ms@)) is None,
        decreases n - i,
    {
        proof {
            assert(l.skip(i as int)[0] == l[i as int]);
            assert(l.skip(i as int).drop_first() =~= l.skip(i as int + 1));
        }
        let w = &els[i];
        let wms = match w {
            JsonValue::Obj(wms) => wms,
            _ => {
                return None;
            }
        };
        match get_req_str(wms, &String::from_str("message")) {
            Some(message) => {
                let ghost pre = out@;
                let wm = WarningMessage { message };
                out.push(wm);
                proof {
                    assert(warn_views(out@) =~= warn_views(pre) + seq![wm@]);
                    if dec_warnings(l.skip(i as int + 1)) is Some {
                        let t = dec_warnings(l.skip(i as int + 1))->0;
                        assert(dec_warnings(l.skip(i as int)) == Some(seq![wm@] + t));
                        assert(warn_views(pre) + (seq![wm@] + t)
                            =~= (warn_views(pre) + seq![wm@]) + t);
                    }
                }
            }
            None => {
                return None;
            }
        }
        i += 1;
    }
    proof {
        assert(l.skip(n as int).len() == 0);
        assert(dec_warnings(l.skip(n as int)) == Some(Seq::<Seq<char>>::empty()));
        assert(warn_views(out@) + Seq::<Seq<char>>::empty() =~= warn_views(out@));
    }
    Some(Some(out))
}

/// Decode a full template version record from a parsed document.
pub fn template_version_from_json(v: &JsonValue) -> (r: Option<TemplateVersion>)
    ensures
        r matches Some(t) ==> dec_template_version(v@) == Some(t@),
        r is None ==> dec_template_version(v@) is None,
{
    let ms = match v {
        JsonValue::Obj(ms) => ms,
        _ => {
            return None;
        }
    };
    let id = match get_req_str(ms, &String::from_str("id")) {
        Some(s) => s,
        None => {
            return None;
        }
    };
    let template_id = match get_req_str(ms, &String::from_str("template_id")) {
        Some(s) => s,
        None => {
            return None;
        }
    };
    let updated_at = match get_opt_str(ms, &String::from_str("updated_at")) {
        Some(o) => o,
        None => {
            return None;
        }
    };
    let thumbnail_url = match get_opt_str(ms, &String::from_str("thumbnail_url")) {
        Some(o) => o,
        None => {
            return None;
        }
    };
    let user_id = match get_opt_u32(ms, &String::from_str("user_id")) {
        Some(o) => o,
        None => {
            return None;
        }
    };
    let active = match get_req_u32(ms, &String::from_str("active")) {
        Some(n) => n,
        None => {
            return None;
        }
    };
    let name = match get_req_str(ms, &String::from_str("name")) {
        Some(s) => s,
        None => {
            return None;
        }
    };
    let html_content = match get_opt_str(ms, &String::from_str("html_content")) {
        Some(o) => o,
        None => {
            return None;
        }
    };
    let plain_content = match get_opt_str(ms, &String::from_str("plain_content")) {
        Some(o) => o,
        None => {
            return None;
        }
    };
    let generate_plain_content = match get_opt_bool(
        ms,
        &String::from_str("generate_plain_content"),
    ) {
        Some(o) => o,
        None => {
            return None;
        }
    };
    let subject = match get_req_str(ms, &String::from_str("subject")) {
        Some(s) => s,
        None => {
            return None;
        }
    };
    let editor = match get_req_str(ms, &String::from_str("editor")) {
        Some(s) => s,
        None => {
            return None;
        }
    };
    let test_data = match get_opt_str(ms, &String::from_str("test_data")) {
        Some(o) => o,
        None => {
            return None;
        }
    };
    let warnings = match warnings_from_obj(ms) {
        Some(o) => o,
        None => {
            return None;
        }
    };
    let out = TemplateVersion {
        id,
        template_id,
        updated_at,
        thumbnail_url,
        user_id,
        active,
        name,
        html_content,
        plain_content,
        generate_plain_content,
        subject,
        editor,
        test_data,
        warnings,
    };
    proof {
        if out.warnings is Some {
            assert(opt_warnings(jv_view_members(ms@))
                == Some(Some(warn_views((out.warnings->0)@))));
        }
    }
    Some(out)
}

} // verus!
