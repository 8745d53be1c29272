//! Reading a scene file as JSON: one level of a document at a time as plain
//! values, and from these the attributes of the scene and the kinds of its
//! materials.

use vstd::prelude::*;
use serde_json::Value;
use crate::json_parser::{
    extra_keys, has_member, is_member, lemma_member_place, member_place, members_of, parse_integer,
    parsed_by, Field, FieldError, FieldView, JsonHandler, NumberError, Scalar,
};
use crate::material::{kind_of_tag, MaterialKind};

verus! {

/// What a JSON text holds at its outermost level.
#[derive(Debug, Clone)]
pub enum JsonNode {
    Null,
    Bool(bool),
    /// A number, as JSON writes it.
    Number(String),
    /// A string.
    Text(String),
    /// An array, with each of its items written as JSON.
    Array(Vec<String>),
    /// An object, with its members.
    Object(Vec<Field>),
}

/// The outermost level of a JSON text as a mathematical value.
pub enum JsonNodeView {
    Null,
    Bool(bool),
    Number(Seq<char>),
    Text(Seq<char>),
    Array(Seq<Seq<char>>),
    Object(Seq<FieldView>),
}

impl View for JsonNode {
    type V = JsonNodeView;

    open spec fn view(&self) -> JsonNodeView {
        match self {
            JsonNode::Null => JsonNodeView::Null,
            JsonNode::Bool(b) => JsonNodeView::Bool(*b),
            JsonNode::Number(n) => JsonNodeView::Number(n@),
            JsonNode::Text(s) => JsonNodeView::Text(s@),
            JsonNode::Array(items) => JsonNodeView::Array(items@.map_values(|s: String| s@)),
            JsonNode::Object(members) => JsonNodeView::Object(
                members@.map_values(|m: Field| m@),
            ),
        }
    }
}

/// What `serde_json` reads from `text`: the outermost level of the document,
/// or the words with which it refuses a text that is no JSON.
pub uninterp spec fn json_node_of(text: Seq<char>) -> Result<JsonNodeView, Seq<char>>;

/// Calls `serde_json::from_str` for a `serde_json::Value` and hands back the
/// outermost level of what was read, or the words of its error. The values
/// inside an array or an object are written as JSON by `Value`'s `Display`.
/// The contract claims only that the result is decided by the text: it is
/// the value that `json_node_of` names.
#[verifier::external_body]
pub(crate) fn json_node(text: &str) -> (r: Result<JsonNode, String>)
    ensures
        match r {
            Ok(node) => json_node_of(text@) == Ok::<JsonNodeView, Seq<char>>(node@),
            Err(e) => json_node_of(text@) == Err::<JsonNodeView, Seq<char>>(e@),
        },
{
    let value = serde_json::from_str::<Value>(text).map_err(|e| e.to_string())?;
    Ok(match value {
        Value::Null => JsonNode::Null,
        Value::Bool(b) => JsonNode::Bool(b),
        Value::Number(n) => JsonNode::Number(n.to_string()),
        Value::String(s) => JsonNode::Text(s),
        Value::Array(items) => JsonNode::Array(items.iter().map(|v| v.to_string()).collect()),
        Value::Object(map) => JsonNode::Object(map.iter().map(|(k, v)| Field {
            key: k.clone(), text: v.as_str().map(|s| s.to_string()), json: v.to_string(),
        }).collect()),
    })
}

/// The members of the object that a JSON text holds at its outermost level;
/// none where it holds no object.
pub open spec fn object_members(node: JsonNodeView) -> Seq<FieldView> {
    match node {
        JsonNodeView::Object(members) => members,
        _ => Seq::empty(),
    }
}

/// The members of the object that the member `key` of `members` holds; none
/// where there is no such member or it holds no object.
pub open spec fn members_under(members: Seq<FieldView>, key: Seq<char>) -> Seq<FieldView> {
    if has_member(members, key) {
        match json_node_of(members[member_place(members, key)].json) {
            Ok(node) => object_members(node),
            Err(_) => Seq::empty(),
        }
    } else {
        Seq::empty()
    }
}

/// The members of the object that `node` holds; none where it holds no
/// object.
pub fn into_fields(node: JsonNode) -> (fields: Vec<Field>)
    ensures
        members_of(fields@) == object_members(node@),
{
    match node {
        JsonNode::Object(fields) => fields,
        _ => {
            let fields: Vec<Field> = Vec::new();
            assert(members_of(fields@) =~= Seq::<FieldView>::empty());
            fields
        },
    }
}

/// The members of the object that the member `key` of `fields` holds; none
/// where there is no such member or it holds no object.
pub fn fields_under(fields: &Vec<Field>, key: &str) -> (inner: Vec<Field>)
    ensures
        members_of(inner@) == members_under(members_of(fields@), key@),
{
    let ghost members = members_of(fields@);
    let mut i: usize = 0;
    while i < fields.len()
        invariant
            i <= fields@.len(),
            members == members_of(fields@),
            forall|j: int| 0 <= j < i ==> (#[trigger] members[j]).key != key@,
        decreases fields@.len() - i,
    {
        if crate::dataforms::same_text(fields[i].key.as_str(), key) {
            proof {
                assert(members[i as int] == fields@[i as int]@);
                assert(is_member(members, key@, i as int));
                lemma_member_place(members, key@);
            }
            return match json_node(fields[i].json.as_str()) {
                Ok(node) => into_fields(node),
                Err(_) => {
                    let inner: Vec<Field> = Vec::new();
                    assert(members_of(inner@) =~= Seq::<FieldView>::empty());
                    inner
                },
            };
        }
        assert(members[i as int] == fields@[i as int]@);
        i = i + 1;
    }
    let inner: Vec<Field> = Vec::new();
    assert(members_of(inner@) =~= Seq::<FieldView>::empty());
    inner
}

/// The attributes of a scene that stand at the outermost level of its
/// description. Those that are no whole numbers are kept as the texts that
/// the file holds.
#[derive(Debug, Clone)]
pub struct SceneAttributes {
    pub max_recursion_depth: Option<i32>,
    pub background_color: Option<String>,
    pub shadow_ray_epsilon: Option<String>,
    pub intersection_test_epsilon: Option<String>,
    pub ambient_light: Option<String>,
    /// The keys of the scene that nobody asked for.
    pub extra_keys: Vec<String>,
}

/// The text of an optional string as a mathematical value.
pub open spec fn text_of(text: Option<String>) -> Option<Seq<char>> {
    match text {
        Some(t) => Some(t@),
        None => None,
    }
}

/// The text of the attribute `key`: none where no member has the key, and
/// an error where the member holds no string.
pub open spec fn attribute(members: Seq<FieldView>, key: Seq<char>) -> Result<
    Option<Seq<char>>,
    FieldError<NumberError>,
> {
    if has_member(members, key) {
        match members[member_place(members, key)].text {
            Some(text) => Ok(Some(text)),
            None => Err(FieldError::ExpectedString),
        }
    } else {
        Ok(None)
    }
}

/// The depth limit that the members of a scene give.
pub open spec fn depth_attribute(scene: Seq<FieldView>) -> Result<
    Option<i32>,
    FieldError<NumberError>,
> {
    match attribute(scene, "MaxRecursionDepth"@) {
        Err(e) => Err(e),
        Ok(None) => Ok(None),
        Ok(Some(text)) => match <i32 as Scalar>::outcome(text) {
            Ok(depth) => Ok(Some(depth)),
            Err(e) => Err(FieldError::Parse(e)),
        },
    }
}

/// Why the attributes cannot be read from the members of a scene and of its
/// lights, if they cannot: the first of the attributes, in the order in
/// which they are asked for, that is refused.
pub open spec fn refusal(scene: Seq<FieldView>, lights: Seq<FieldView>) -> Option<
    FieldError<NumberError>,
> {
    if depth_attribute(scene) is Err {
        Some(depth_attribute(scene)->Err_0)
    } else if attribute(scene, "BackgroundColor"@) is Err || attribute(scene, "ShadowRayEpsilon"@)
        is Err || attribute(scene, "IntersectionTestEpsilon"@) is Err {
        Some(FieldError::ExpectedString)
    } else if has_member(scene, "Lights"@) && attribute(lights, "AmbientLight"@) is Err {
        Some(FieldError::ExpectedString)
    } else {
        None
    }
}

/// The keys that the reader of scene attributes asks for.
pub open spec fn scene_keys() -> Set<Seq<char>> {
    set![
        "MaxRecursionDepth"@,
        "BackgroundColor"@,
        "ShadowRayEpsilon"@,
        "IntersectionTestEpsilon"@,
        "Lights"@,
    ]
}

/// Whether `attributes` is what the members of a scene and of its lights
/// give.
pub open spec fn holds_attributes(
    attributes: SceneAttributes,
    scene: Seq<FieldView>,
    lights: Seq<FieldView>,
) -> bool {
    &&& Ok::<Option<i32>, FieldError<NumberError>>(attributes.max_recursion_depth)
        == depth_attribute(scene)
    &&& Ok::<Option<Seq<char>>, FieldError<NumberError>>(text_of(attributes.background_color))
        == attribute(scene, "BackgroundColor"@)
    &&& Ok::<Option<Seq<char>>, FieldError<NumberError>>(text_of(attributes.shadow_ray_epsilon))
        == attribute(scene, "ShadowRayEpsilon"@)
    &&& Ok::<Option<Seq<char>>, FieldError<NumberError>>(
        text_of(attributes.intersection_test_epsilon),
    ) == attribute(scene, "IntersectionTestEpsilon"@)
    &&& if has_member(scene, "Lights"@) {
        Ok::<Option<Seq<char>>, FieldError<NumberError>>(text_of(attributes.ambient_light))
            == attribute(lights, "AmbientLight"@)
    } else {
        attributes.ambient_light is None
    }
    &&& attributes.extra_keys@.map_values(|k: String| k@) == extra_keys(scene, scene_keys())
}

/// Keeps a text as it is.
pub fn keep_text(s: &str) -> (r: Result<String, NumberError>)
    ensures
        r is Ok,
        r->Ok_0@ == s@,
{
    Ok(s.to_owned())
}

/// Only the keys that members have decide which keys are extra.
pub proof fn lemma_extra_keys_agree(
    members: Seq<FieldView>,
    handled: Set<Seq<char>>,
    other: Set<Seq<char>>,
)
    requires
        forall|i: int|
            0 <= i < members.len() ==> (handled.contains((#[trigger] members[i]).key)
                <==> other.contains(members[i].key)),
    ensures
        extra_keys(members, handled) == extra_keys(members, other),
    decreases members.len(),
{
    if members.len() > 0 {
        let shorter = members.drop_last();
        assert forall|i: int| 0 <= i < shorter.len() implies (handled.contains(
            (#[trigger] shorter[i]).key,
        ) <==> other.contains(shorter[i].key)) by {
            assert(shorter[i] == members[i]);
        }
        lemma_extra_keys_agree(shorter, handled, other);
        assert(members[members.len() - 1] == members.last());
    }
}

/// Reads the attributes of a scene from the members of its description and
/// from the members of its lights, in this order: the depth limit, the
/// background colour, the two epsilons, and the ambient light. The first
/// that is refused decides the error.
pub fn read_scene_attributes(scene: Vec<Field>, lights: Vec<Field>) -> (r: Result<
    SceneAttributes,
    FieldError<NumberError>,
>)
    ensures
        match r {
            Ok(attributes) => refusal(members_of(scene@), members_of(lights@)) is None
                && holds_attributes(attributes, members_of(scene@), members_of(lights@)),
            Err(e) => refusal(members_of(scene@), members_of(lights@)) == Some(e),
        },
{
    let ghost members = members_of(scene@);
    let ghost light_members = members_of(lights@);
    let mut handler = JsonHandler::new(scene);
    let mut max_recursion_depth: Option<i32> = None;
    let mut background_color: Option<String> = None;
    let mut shadow_ray_epsilon: Option<String> = None;
    let mut intersection_test_epsilon: Option<String> = None;
    let mut ambient_light: Option<String> = None;

    match handler.get_optional(&mut max_recursion_depth, "MaxRecursionDepth", parse_integer) {
        Err(e) => {
            return Err(e);
        },
        Ok(_) => {},
    }
    match handler.get_optional(&mut background_color, "BackgroundColor", keep_text) {
        Err(e) => {
            return Err(e);
        },
        Ok(_) => {},
    }
    match handler.get_optional(&mut shadow_ray_epsilon, "ShadowRayEpsilon", keep_text) {
        Err(e) => {
            return Err(e);
        },
        Ok(_) => {},
    }
    match handler.get_optional(
        &mut intersection_test_epsilon,
        "IntersectionTestEpsilon",
        keep_text,
    ) {
        Err(e) => {
            return Err(e);
        },
        Ok(_) => {},
    }
    if handler.get_subobject("Lights").is_some() {
        let mut lights_handler = JsonHandler::new(lights);
        match lights_handler.get_optional(&mut ambient_light, "AmbientLight", keep_text) {
            Err(e) => {
                return Err(e);
            },
            Ok(_) => {},
        }
    }
    let extra_keys = handler.warn_extra();
    proof {
        assert forall|i: int| 0 <= i < members.len() implies (handler@.handled.contains(
            (#[trigger] members[i]).key,
        ) <==> scene_keys().contains(members[i].key)) by {
            let k = members[i].key;
            assert(has_member(members, k));
        }
        lemma_extra_keys_agree(members, handler@.handled, scene_keys());
    }
    Ok(
        SceneAttributes {
            max_recursion_depth,
            background_color,
            shadow_ray_epsilon,
            intersection_test_epsilon,
            ambient_light,
            extra_keys,
        },
    )
}

/// Why a scene could not be read.
#[derive(Debug, Clone)]
pub enum ImportError {
    /// The text is no JSON; the words are those of the JSON reader.
    Json(String),
    /// An attribute was refused.
    Field(FieldError<NumberError>),
}

/// Reads the attributes of the scene that the JSON text `text` describes:
/// those of the object under the key `Scene`, and the ambient light of the
/// object under its key `Lights`. A document without these objects
/// describes a scene without attributes.
pub fn import_scene_json(text: &str) -> (r: Result<SceneAttributes, ImportError>)
    ensures
        match json_node_of(text@) {
            Err(words) => r is Err && r->Err_0 is Json && r->Err_0->Json_0@ == words,
            Ok(document) => {
                let scene = members_under(object_members(document), "Scene"@);
                let lights = members_under(scene, "Lights"@);
                match r {
                    Ok(attributes) => refusal(scene, lights) is None && holds_attributes(
                        attributes,
                        scene,
                        lights,
                    ),
                    Err(ImportError::Field(e)) => refusal(scene, lights) == Some(e),
                    Err(ImportError::Json(_)) => false,
                }
            },
        },
{
    let document = match json_node(text) {
        Err(words) => {
            return Err(ImportError::Json(words));
        },
        Ok(node) => into_fields(node),
    };
    let scene = fields_under(&document, "Scene");
    let lights = fields_under(&scene, "Lights");
    match read_scene_attributes(scene, lights) {
        Ok(attributes) => Ok(attributes),
        Err(e) => Err(ImportError::Field(e)),
    }
}

/// A material as a scene file describes it: its description written as
/// JSON, the tag that the description gives for its kind, if it gives one,
/// and the kind that it is read as.
#[derive(Debug, Clone)]
pub struct MaterialSource {
    pub kind: MaterialKind,
    pub tag: Option<String>,
    pub json: String,
}

/// The tag that a description of a material gives for its kind: the text of
/// the member `_type` of the object. What is no object gives none.
pub open spec fn material_tag(node: Result<JsonNodeView, Seq<char>>) -> Option<Seq<char>> {
    match node {
        Ok(JsonNodeView::Object(members)) => if has_member(members, "_type"@) {
            members[member_place(members, "_type"@)].text
        } else {
            None
        },
        _ => None,
    }
}

/// Whether `source` is the material that the JSON text `json` describes.
pub open spec fn describes(json: Seq<char>, source: MaterialSource) -> bool {
    &&& source.json@ == json
    &&& text_of(source.tag) == material_tag(json_node_of(json))
    &&& source.kind == kind_of_tag(material_tag(json_node_of(json)))
}

/// Reads one material from its description: its kind is the one that the
/// member `_type` names, and diffuse where there is no such text or it names
/// no kind.
pub fn parse_single_material(json: &str) -> (source: MaterialSource)
    ensures
        describes(json@, source),
{
    let tag: Option<String> = match json_node(json) {
        Ok(JsonNode::Object(fields)) => {
            let handler = JsonHandler::new(fields);
            match handler.find("_type") {
                Some(i) => {
                    proof {
                        lemma_member_place(handler@.members, "_type"@);
                        assert(handler@.members[i as int] == handler.fields@[i as int]@);
                    }
                    handler.fields[i].text.clone()
                },
                None => None,
            }
        },
        _ => None,
    };
    let kind = match &tag {
        Some(t) => MaterialKind::from_type(Some(t.as_str())),
        None => MaterialKind::from_type(None),
    };
    MaterialSource { kind, tag, json: json.to_owned() }
}

/// Reads the materials that the JSON text `json` describes: one for each
/// item of an array, one for an object, and none for anything else.
pub fn parse_material(json: &str) -> (sources: Vec<MaterialSource>)
    ensures
        match json_node_of(json@) {
            Ok(JsonNodeView::Array(items)) => {
                &&& sources@.len() == items.len()
                &&& forall|i: int|
                    0 <= i < items.len() ==> describes(items[i], #[trigger] sources@[i])
            },
            Ok(JsonNodeView::Object(_)) => sources@.len() == 1 && describes(json@, sources@[0]),
            _ => sources@.len() == 0,
        },
{
    match json_node(json) {
        Ok(JsonNode::Array(items)) => {
            let mut sources: Vec<MaterialSource> = Vec::with_capacity(items.len());
            let mut i: usize = 0;
            while i < items.len()
                invariant
                    i <= items@.len(),
                    sources@.len() == i,
                    forall|j: int|
                        0 <= j < i ==> describes(items@[j]@, #[trigger] sources@[j]),
                decreases items@.len() - i,
            {
                sources.push(parse_single_material(items[i].as_str()));
                i = i + 1;
            }
            sources
        },
        Ok(JsonNode::Object(_)) => {
            let mut sources: Vec<MaterialSource> = Vec::with_capacity(1);
            sources.push(parse_single_material(json));
            sources
        },
        _ => Vec::new(),
    }
}

} // verus!
