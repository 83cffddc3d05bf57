use vstd::prelude::*;

use vstd::string::*;

use crate::types::{Light, LightId};

verus! {

/// Whether a character is kept as it is in node and file names.
pub open spec fn is_name_char(c: char) -> bool {
    ('a' <= c && c <= 'z') || ('A' <= c && c <= 'Z') || ('0' <= c && c <= '9')
}

/// A label made safe for node and file names: every character but ASCII letters and digits
/// becomes `-`.
pub open spec fn safe_label(label: Seq<char>) -> Seq<char> {
    label.map_values(|c: char| if is_name_char(c) { c } else { '-' })
}

/// The node name declared for a light: prefix, provider and safe label, joined by `-`.
pub open spec fn node_name_of(prefix: Seq<char>, provider: Seq<char>, label: Seq<char>) -> Seq<
    char,
> {
    prefix + "-"@ + provider + "-"@ + safe_label(label)
}

/// The file name of a descriptor: its node name with the `.conf` extension.
pub open spec fn filename_of(prefix: Seq<char>, provider: Seq<char>, label: Seq<char>) -> Seq<
    char,
> {
    node_name_of(prefix, provider, label) + ".conf"@
}

/// The text of a descriptor: one virtual audio sink named after the light, tagged with the
/// prefix, the provider and the light's identity.
pub open spec fn descriptor_text(
    prefix: Seq<char>,
    provider: Seq<char>,
    label: Seq<char>,
    id: Seq<char>,
) -> Seq<char> {
    "# "@ + prefix + " drop-in for "@ + label + "\ncontext.objects = [\n    {\n        factory = adapter\n        args = {\n            factory.name = support.null-audio-sink\n            node.name = \""@
        + node_name_of(prefix, provider, label) + "\"\n            node.description = \""@ + label
        + "\"\n            media.class = Audio/Sink\n            audio.position = [ FL FR ]\n            "@
        + prefix + ".provider = \""@ + provider + "\"\n            "@ + prefix + ".light-id = \""@
        + id + "\"\n        }\n    }\n]\n"@
}

/// Whether a file name is one that descriptor generation under `prefix` produces.
pub open spec fn is_generated_name(name: Seq<char>, prefix: Seq<char>) -> bool {
    let head = prefix + "-"@;
    &&& name.len() >= head.len() + 5
    &&& name.subrange(0, head.len() as int) == head
    &&& name.subrange(name.len() - 5, name.len() as int) == ".conf"@
}

/// Every descriptor file name is recognised as generated under its own prefix, so a cleanup
/// pass by prefix finds it again.
pub proof fn lemma_filename_recognised(prefix: Seq<char>, provider: Seq<char>, label: Seq<char>)
    ensures
        is_generated_name(filename_of(prefix, provider, label), prefix),
{
    reveal_strlit(".conf");
    reveal_strlit("-");
    let head = prefix + "-"@;
    let rest = provider + "-"@ + safe_label(label);
    let name = filename_of(prefix, provider, label);
    assert(name =~= head + rest + ".conf"@);
    assert(name.subrange(0, head.len() as int) =~= head);
    assert(name.subrange(name.len() - 5, name.len() as int) =~= ".conf"@);
}

/// Whether `name` is a file that descriptor generation under `prefix` produces: it starts with
/// the prefix and a dash and ends with `.conf`. Nothing else is ever removed by cleanup.
pub fn is_generated_filename(name: &str, prefix: &str) -> (r: bool)
    ensures
        r == is_generated_name(name@, prefix@),
{
    let head = String::from_str(prefix).concat("-");
    let head_len = head.unicode_len();
    let name_len = name.unicode_len();
    proof {
        reveal_strlit(".conf");
    }
    if head_len > usize::MAX - 5 || name_len < head_len + 5 {
        return false;
    }
    let start = String::from_str(name.substring_char(0, head_len));
    let end = String::from_str(name.substring_char(name_len - 5, name_len));
    start == head && end == String::from_str(".conf")
}

/// The declaration binding one light to a virtual audio node.
#[derive(Clone, Debug)]
pub struct DropinConfig {
    pub provider: String,
    pub label: String,
    pub id: LightId,
    pub prefix: String,
}

fn make_safe(label: &String) -> (r: String)
    ensures
        r@ == safe_label(label@),
{
    let n = label.unicode_len();
    let mut out = String::new();
    assert(safe_label(label@.subrange(0, 0)) =~= Seq::<char>::empty());
    let mut i: usize = 0;
    while i < n
        invariant
            n == label@.len(),
            i <= n,
            out@ == safe_label(label@.subrange(0, i as int)),
        decreases n - i,
    {
        let c = label.get_char(i);
        let ghost before = out@;
        if ('a' <= c && c <= 'z') || ('A' <= c && c <= 'Z') || ('0' <= c && c <= '9') {
            out.append(label.as_str().substring_char(i, i + 1));
        } else {
            out.append("-");
        }
        proof {
            reveal_strlit("-");
        }
        assert(safe_label(label@.subrange(0, i as int + 1)) =~= before + seq![
            if is_name_char(c) {
                c
            } else {
                '-'
            },
        ]);
        assert(out@ =~= safe_label(label@.subrange(0, i as int + 1)));
        i = i + 1;
    }
    assert(label@.subrange(0, n as int) =~= label@);
    out
}

impl DropinConfig {
    pub fn new(provider: String, label: String, id: LightId, prefix: String) -> (r: DropinConfig)
        ensures
            r.provider == provider,
            r.label == label,
            r.id == id,
            r.prefix == prefix,
    {
        DropinConfig { provider, label, id, prefix }
    }

    /// The descriptor of a discovered light under `prefix`.
    pub fn for_light(light: &Light, prefix: &String) -> (r: DropinConfig)
        ensures
            r.provider@ == light.provider@,
            r.label@ == light.state.label@,
            r.id.0@ == light.state.id.0@,
            r.prefix@ == prefix@,
    {
        DropinConfig {
            provider: light.provider.clone(),
            label: light.state.label.clone(),
            id: light.state.id.duplicate(),
            prefix: prefix.clone(),
        }
    }

    /// One descriptor per discovered light, in the same order.
    pub fn for_lights(lights: &Vec<Light>, prefix: &String) -> (r: Vec<DropinConfig>)
        ensures
            r@.len() == lights@.len(),
            forall|i: int|
                0 <= i < r@.len() ==> {
                    &&& (#[trigger] r@[i]).provider@ == lights@[i].provider@
                    &&& r@[i].label@ == lights@[i].state.label@
                    &&& r@[i].id.0@ == lights@[i].state.id.0@
                    &&& r@[i].prefix@ == prefix@
                },
    {
        let mut out: Vec<DropinConfig> = Vec::new();
        let mut i: usize = 0;
        while i < lights.len()
            invariant
                i <= lights@.len(),
                out@.len() == i,
                forall|k: int|
                    0 <= k < i ==> {
                        &&& (#[trigger] out@[k]).provider@ == lights@[k].provider@
                        &&& out@[k].label@ == lights@[k].state.label@
                        &&& out@[k].id.0@ == lights@[k].state.id.0@
                        &&& out@[k].prefix@ == prefix@
                    },
            decreases lights@.len() - i,
        {
            out.push(DropinConfig::for_light(&lights[i], prefix));
            i = i + 1;
        }
        out
    }

    /// The node name this descriptor declares.
    pub fn node_name(&self) -> (r: String)
        ensures
            r@ == node_name_of(self.prefix@, self.provider@, self.label@),
    {
        let safe = make_safe(&self.label);
        self.prefix.clone().concat("-").concat(self.provider.as_str()).concat("-").concat(
            safe.as_str(),
        )
    }

    /// The file name of this descriptor.
    pub fn filename(&self) -> (r: String)
        ensures
            r@ == filename_of(self.prefix@, self.provider@, self.label@),
    {
        self.node_name().concat(".conf")
    }

    /// The text of this descriptor.
    pub fn generate(&self) -> (r: String)
        ensures
            r@ == descriptor_text(self.prefix@, self.provider@, self.label@, self.id.0@),
    {
        let node = self.node_name();
        String::from_str("# ").concat(self.prefix.as_str()).concat(" drop-in for ").concat(
            self.label.as_str(),
        ).concat(
            "\ncontext.objects = [\n    {\n        factory = adapter\n        args = {\n            factory.name = support.null-audio-sink\n            node.name = \"",
        ).concat(node.as_str()).concat("\"\n            node.description = \"").concat(
            self.label.as_str(),
        ).concat(
            "\"\n            media.class = Audio/Sink\n            audio.position = [ FL FR ]\n            ",
        ).concat(self.prefix.as_str()).concat(".provider = \"").concat(
            self.provider.as_str(),
        ).concat("\"\n            ").concat(self.prefix.as_str()).concat(".light-id = \"").concat(
            self.id.0.as_str(),
        ).concat("\"\n        }\n    }\n]\n")
    }
}

} // verus!
