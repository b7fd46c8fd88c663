//! The embedded rating, read from the XMP properties of a file.

use crate::text::{parse_i16, parse_i16_spec};
use vstd::prelude::*;

verus! {

/// One property of the XMP data model, as the XMP toolkit reports it when
/// it walks a packet: the namespace of its schema, its prefixed path and
/// its value.
#[derive(Clone, Debug, PartialEq, Eq)]
pub struct XmpProperty {
    pub schema_ns: String,
    pub name: String,
    pub value: String,
}

/// Mathematical model of an [`XmpProperty`].
pub struct XmpPropertyView {
    pub schema_ns: Seq<char>,
    pub name: Seq<char>,
    pub value: Seq<char>,
}

impl View for XmpProperty {
    type V = XmpPropertyView;

    open spec fn view(&self) -> XmpPropertyView {
        XmpPropertyView { schema_ns: self.schema_ns@, name: self.name@, value: self.value@ }
    }
}

impl DeepView for XmpProperty {
    type V = XmpPropertyView;

    open spec fn deep_view(&self) -> XmpPropertyView {
        self@
    }
}

/// Namespace of the schema that holds the rating.
pub open spec fn rating_namespace() -> Seq<char> {
    "http://ns.adobe.com/xap/1.0/"@
}

/// Path of the rating inside its schema, with the prefix of the schema.
pub open spec fn rating_path() -> Seq<char> {
    "xmp:Rating"@
}

/// `property` is the rating of the file.
pub open spec fn is_rating(property: XmpPropertyView) -> bool {
    property.schema_ns == rating_namespace() && property.name == rating_path()
}

/// The text of the first rating among `properties`.
pub open spec fn first_rating_text(properties: Seq<XmpPropertyView>) -> Option<Seq<char>>
    decreases properties.len(),
{
    if properties.len() == 0 {
        None
    } else if is_rating(properties[0]) {
        Some(properties[0].value)
    } else {
        first_rating_text(properties.drop_first())
    }
}

/// The rating that a file embeds. `xmp` holds the XMP properties of the
/// file in the order in which a walk of its packet meets them, or nothing
/// where the file has no packet that could be read. The first rating met
/// counts; a file without one, or with one that is no signed 16-bit
/// integer, has no rating.
pub open spec fn rating_of(xmp: Option<Seq<XmpPropertyView>>) -> Option<i16> {
    match xmp {
        None => None,
        Some(properties) => match first_rating_text(properties) {
            None => None,
            Some(text) => parse_i16_spec(text),
        },
    }
}

/// Properties that are no rating can be skipped in front of a list.
pub proof fn lemma_first_rating_text_skip(properties: Seq<XmpPropertyView>, n: int)
    requires
        0 <= n <= properties.len(),
        forall|j: int| 0 <= j < n ==> !is_rating(#[trigger] properties[j]),
    ensures
        first_rating_text(properties) == first_rating_text(properties.skip(n)),
    decreases n,
{
    if n == 0 {
        assert(properties.skip(0) =~= properties);
    } else {
        let rest = properties.drop_first();
        assert forall|j: int| 0 <= j < n - 1 implies !is_rating(#[trigger] rest[j]) by {
            assert(rest[j] == properties[j + 1]);
        }
        lemma_first_rating_text_skip(rest, n - 1);
        assert(rest.skip(n - 1) =~= properties.skip(n));
    }
}

/// Reads the embedded rating out of the XMP properties of a file.
pub fn embedded_rating(xmp: &Option<Vec<XmpProperty>>) -> (rating: Option<i16>)
    ensures
        rating == rating_of(xmp.deep_view()),
{
    match xmp {
        None => None,
        Some(properties) => {
            let namespace = String::from_str("http://ns.adobe.com/xap/1.0/");
            let path = String::from_str("xmp:Rating");
            let ghost model = properties.deep_view();
            let mut i: usize = 0;
            while i < properties.len()
                invariant
                    i <= properties@.len(),
                    model == properties.deep_view(),
                    xmp.deep_view() == Some(model),
                    namespace@ == rating_namespace(),
                    path@ == rating_path(),
                    forall|j: int| 0 <= j < i ==> !is_rating(#[trigger] model[j]),
                decreases properties@.len() - i,
            {
                assert(model[i as int] == properties@[i as int]@);
                if properties[i].schema_ns == namespace && properties[i].name == path {
                    proof {
                        lemma_first_rating_text_skip(model, i as int);
                        assert(model.skip(i as int)[0] == model[i as int]);
                        assert(is_rating(model[i as int]));
                    }
                    return parse_i16(properties[i].value.as_str());
                }
                i += 1;
            }
            proof {
                lemma_first_rating_text_skip(model, i as int);
            }
            None
        },
    }
}

} // verus!
