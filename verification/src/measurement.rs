//! Tagged, timestamped measurements and their line-protocol rendering.

use vstd::prelude::*;
use crate::strmap::StrMap;
use crate::strmap::spec_sorted_insert;
use crate::text::digits_u128;
use crate::text::escape;
use crate::text::spec_escape;
use crate::text::spec_int_text;
use crate::text::string_from_chars;
use vstd::string::StringExecFns;

verus! {

broadcast use vstd::string::group_string_axioms;

/// Whether double-precision bits denote a finite number: the exponent field
/// is not all ones.
pub open spec fn spec_finite_bits(b: u64) -> bool {
    (b >> 52) & 0x7FF != 0x7FF
}

/// Whether double-precision bits denote zero, of either sign.
pub open spec fn spec_zero_bits(b: u64) -> bool {
    b & 0x7FFF_FFFF_FFFF_FFFF == 0
}

/// Whether double-precision bits denote a finite number.
pub fn is_finite_bits(b: u64) -> (r: bool)
    ensures
        r == spec_finite_bits(b),
{
    (b >> 52) & 0x7FF != 0x7FF
}

/// Whether double-precision bits denote zero, of either sign.
pub fn is_zero_bits(b: u64) -> (r: bool)
    ensures
        r == spec_zero_bits(b),
{
    b & 0x7FFF_FFFF_FFFF_FFFF == 0
}

/// One tagged, timestamped set of named field values, suitable for
/// time-series ingestion. Field values are held as the bits of IEEE
/// double-precision numbers.
pub struct Measurement {
    /// The measurement's identifier.
    pub id: String,
    /// The instant of the measurement, in nanoseconds since the Unix epoch.
    pub timestamp: i128,
    /// The measurement's tags, ordered by key.
    pub tags: StrMap<String>,
    /// The named field values, ordered by key, each the bits of a
    /// double-precision number.
    pub fields: StrMap<u64>,
}

impl Measurement {
    /// Both the tag set and the field set keep their keys sorted.
    pub open spec fn spec_wf(&self) -> bool {
        self.tags.spec_wf() && self.fields.spec_wf()
    }

    /// A fresh measurement at a reading's instant, carrying the given tags
    /// and no fields yet. The instant arrives as seconds since the Unix
    /// epoch and is held in nanoseconds.
    pub fn new(id: &str, timestamp: i64, tags: StrMap<String>) -> (m: Measurement)
        requires
            tags.spec_wf(),
        ensures
            m.id@ == id@,
            m.timestamp == timestamp as int * 1_000_000_000,
            m.tags == tags,
            m.fields.spec_entries() == Seq::<(String, u64)>::empty(),
            m.fields@ == Map::<Seq<char>, u64>::empty(),
            m.spec_wf(),
    {
        Measurement {
            id: id.to_owned(),
            timestamp: (timestamp as i128) * 1_000_000_000,
            tags,
            fields: StrMap::new(),
        }
    }

    /// Adds a named field. A field value must be finite; a non-finite value
    /// is a programming error, so the precondition refuses it.
    pub fn add_field(&mut self, key: String, value: u64)
        requires
            old(self).spec_wf(),
            spec_finite_bits(value),
        ensures
            final(self).spec_wf(),
            final(self).fields@ == old(self).fields@.insert(key@, value),
            final(self).fields.spec_entries() == spec_sorted_insert(
                old(self).fields.spec_entries(),
                key,
                value,
            ),
            final(self).id == old(self).id,
            final(self).timestamp == old(self).timestamp,
            final(self).tags == old(self).tags,
    {
        self.fields.insert(key, value);
    }
}

/// The rendering of a tag list: a comma before each tag, the key and value
/// escaped and joined by an equals sign.
pub open spec fn spec_tags_text(s: Seq<(String, String)>) -> Seq<char>
    decreases s.len(),
{
    if s.len() == 0 {
        Seq::empty()
    } else {
        spec_tags_text(s.drop_last()) + seq![','] + spec_escape(s.last().0@) + seq!['=']
            + spec_escape(s.last().1@)
    }
}

/// The rendering of the first `n` fields: escaped keys joined to the given
/// value texts, the fields separated by commas.
pub open spec fn spec_fields_text_upto(s: Seq<(String, u64)>, texts: Seq<String>, n: int) -> Seq<
    char,
>
    decreases n,
{
    if n <= 0 {
        Seq::empty()
    } else if n == 1 {
        spec_escape(s[0].0@) + seq!['='] + texts[0]@
    } else {
        spec_fields_text_upto(s, texts, n - 1) + seq![','] + spec_escape(s[n - 1].0@) + seq!['=']
            + texts[n - 1]@
    }
}

/// The textual rendering of a measurement, given the text of each field
/// value in field order: the identifier, a comma-separated tag list, a
/// space, the comma-separated fields, a space, and the timestamp in
/// nanoseconds.
pub open spec fn spec_render_line(m: Measurement, texts: Seq<String>) -> Seq<char> {
    m.id@ + spec_tags_text(m.tags.spec_entries()) + seq![' '] + spec_fields_text_upto(
        m.fields.spec_entries(),
        texts,
        m.fields.spec_entries().len() as int,
    ) + seq![' '] + spec_int_text(m.timestamp as int)
}

impl Measurement {
    /// Renders the measurement in line-protocol form. The text of each
    /// field value is supplied by the caller in field order, since a
    /// double-precision number's textual form is not the library's to
    /// decide; everything else is rendered here. A measurement must carry
    /// at least one field to be rendered.
    #[verifier::loop_isolation(false)]
    pub fn render_line(&self, field_values: &Vec<String>) -> (r: String)
        requires
            self.spec_wf(),
            self.fields.spec_entries().len() > 0,
            field_values@.len() == self.fields.spec_entries().len(),
            self.timestamp > i128::MIN,
        ensures
            r@ == spec_render_line(*self, field_values@),
    {
        proof {
            reveal_strlit(",");
            reveal_strlit("=");
            reveal_strlit(" ");
            reveal_strlit("-");
            assert(","@ =~= seq![',']);
            assert("="@ =~= seq!['=']);
            assert(" "@ =~= seq![' ']);
            assert("-"@ =~= seq!['-']);
        }
        let mut line = self.id.clone();
        let tag_entries = self.tags.entries();
        let tn = tag_entries.len();
        let mut i: usize = 0;
        while i < tn
            invariant
                i <= tn,
                tn == self.tags.spec_entries().len(),
                tag_entries@ == self.tags.spec_entries(),
                line@ == self.id@ + spec_tags_text(self.tags.spec_entries().take(i as int)),
            decreases tn - i,
        {
            let ek = escape(tag_entries[i].0.as_str());
            let ev = escape(tag_entries[i].1.as_str());
            line.append(",");
            line.append(ek.as_str());
            line.append("=");
            line.append(ev.as_str());
            proof {
                let s = self.tags.spec_entries();
                assert(s.take(i + 1).drop_last() =~= s.take(i as int));
                assert(s.take(i + 1).last() == s[i as int]);
                assert(line@ =~= self.id@ + spec_tags_text(s.take(i + 1)));
            }
            i = i + 1;
        }
        proof {
            assert(self.tags.spec_entries().take(tn as int) =~= self.tags.spec_entries());
        }
        line.append(" ");
        let ghost prefix = line@;
        let field_entries = self.fields.entries();
        let fnum = field_entries.len();
        let mut j: usize = 0;
        while j < fnum
            invariant
                j <= fnum,
                fnum == self.fields.spec_entries().len(),
                field_entries@ == self.fields.spec_entries(),
                field_values@.len() == fnum,
                line@ == prefix + spec_fields_text_upto(
                    self.fields.spec_entries(),
                    field_values@,
                    j as int,
                ),
            decreases fnum - j,
        {
            if j > 0 {
                line.append(",");
            }
            let ek = escape(field_entries[j].0.as_str());
            line.append(ek.as_str());
            line.append("=");
            line.append(field_values[j].as_str());
            proof {
                assert(line@ =~= prefix + spec_fields_text_upto(
                    self.fields.spec_entries(),
                    field_values@,
                    j + 1,
                ));
            }
            j = j + 1;
        }
        line.append(" ");
        if self.timestamp < 0 {
            line.append("-");
            let mag = (-self.timestamp) as u128;
            let ds = digits_u128(mag);
            let dtext = string_from_chars(&ds);
            line.append(dtext.as_str());
        } else {
            let ds = digits_u128(self.timestamp as u128);
            let dtext = string_from_chars(&ds);
            line.append(dtext.as_str());
        }
        proof {
            assert(line@ =~= spec_render_line(*self, field_values@));
        }
        line
    }
}

} // verus!
