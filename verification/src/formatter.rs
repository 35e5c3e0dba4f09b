//! Rendering a sequence of measurements as one text.

use crate::measurement::Measurement;
use vstd::prelude::*;

verus! {

/// The texts of the measurements, one after another, with nothing between
/// them and nothing after the last.
pub open spec fn rendered(values: Seq<Measurement>) -> Seq<char> {
    values.map_values(|value: Measurement| value.text()).flatten()
}

/// No measurements render as the empty text.
pub proof fn lemma_rendered_empty()
    ensures
        rendered(Seq::empty()) == Seq::<char>::empty(),
{
    assert(Seq::<Measurement>::empty().map_values(|value: Measurement| value.text())
        =~= Seq::<Seq<char>>::empty());
}

/// One more measurement adds its text at the end.
pub proof fn lemma_rendered_push(values: Seq<Measurement>, value: Measurement)
    ensures
        rendered(values.push(value)) == rendered(values) + value.text(),
{
    let texts = values.map_values(|value: Measurement| value.text());
    assert(values.push(value).map_values(|value: Measurement| value.text()) =~= texts.push(
        value.text(),
    ));
    texts.lemma_flatten_push(value.text());
}

/// Renders the measurements in order, each in its default decimal form.
pub fn format(values: &[Measurement]) -> (r: String)
    ensures
        r@ == rendered(values@),
{
    let mut out = String::new();
    let mut i: usize = 0;
    proof {
        lemma_rendered_empty();
        assert(values@.take(0) =~= Seq::<Measurement>::empty());
    }
    while i < values.len()
        invariant
            i <= values@.len(),
            out@ == rendered(values@.take(i as int)),
        decreases values@.len() - i,
    {
        let text = values[i].to_text();
        proof {
            lemma_rendered_push(values@.take(i as int), values@[i as int]);
            assert(values@.take(i as int).push(values@[i as int]) =~= values@.take(i + 1));
        }
        out.append(text.as_str());
        i += 1;
    }
    assert(values@.take(i as int) =~= values@);
    out
}

} // verus!
