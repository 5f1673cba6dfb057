//! Domain names as label sequences.

use vstd::prelude::*;
use vstd::utf8::{decode_utf8_encode_utf8, encode_utf8_decode_utf8, encode_utf8_valid_utf8};
use crate::streams::{
    done, fail, lemma_prepend_nothing, lemma_prepend_twice, parse_text, parse_u8, prepend,
    text_wire, yields, DecodeError, IStream, OStream, Parse,
};

verus! {

/// A domain name: its labels, most specific first, as they appear on the
/// wire (`www.example.com` is `["www", "example", "com"]`).
///
/// The last label is the root-most one, so a walk from the root towards the
/// leaf takes [`Domain::head`] first and goes on with [`Domain::tail`].
#[derive(Debug, PartialEq, Eq)]
pub struct Domain(pub Vec<String>);

impl View for Domain {
    type V = Seq<Seq<char>>;

    open spec fn view(&self) -> Seq<Seq<char>> {
        Seq::new(self.0.len() as nat, |i: int| self.0[i]@)
    }
}

/// The octets of one label: a length octet, then the octets of the text.
///
/// The length octet holds the length modulo 256, which is the length
/// itself for every label that [`domain_encodable`] admits.
pub open spec fn label_wire(label: Seq<char>) -> Seq<u8> {
    seq![(text_wire(label).len() % 256) as u8] + text_wire(label)
}

/// The octets of a run of labels, one after the other.
pub open spec fn labels_wire(labels: Seq<Seq<char>>) -> Seq<u8>
    decreases labels.len(),
{
    if labels.len() == 0 {
        Seq::empty()
    } else {
        label_wire(labels.first()) + labels_wire(labels.drop_first())
    }
}

/// The octets of a name: its labels, then a zero octet.
pub open spec fn domain_wire(labels: Seq<Seq<char>>) -> Seq<u8> {
    labels_wire(labels) + seq![0u8]
}

/// Whether a name can be told from its octets: every label has at least
/// one octet and at most 255.
pub open spec fn domain_encodable(labels: Seq<Seq<char>>) -> bool {
    forall|i: int| 0 <= i < labels.len() ==> 0 < text_wire(#[trigger] labels[i]).len() <= 255
}

/// Reading a name: labels, each a length octet and a text of that many
/// octets, up to the first zero length octet.
pub open spec fn parse_domain(s: Seq<u8>) -> Parse<Seq<Seq<char>>>
    decreases s.len(),
{
    match parse_u8(s).outcome {
        Err(error) => fail(error, parse_u8(s).rest),
        Ok(size) => if size == 0 {
            done(Seq::empty(), parse_u8(s).rest)
        } else {
            let text = parse_text(parse_u8(s).rest, size as nat);
            match text.outcome {
                Err(error) => fail(error, text.rest),
                Ok(label) => prepend(seq![label], parse_domain(text.rest)),
            }
        },
    }
}

/// The octets of a run of labels followed by one more label.
pub proof fn lemma_labels_wire_push(labels: Seq<Seq<char>>, label: Seq<char>)
    ensures
        labels_wire(labels.push(label)) == labels_wire(labels) + label_wire(label),
    decreases labels.len(),
{
    let pushed = labels.push(label);
    if labels.len() == 0 {
        assert(pushed.drop_first() =~= Seq::<Seq<char>>::empty());
        assert(labels_wire(pushed.drop_first()) =~= Seq::<u8>::empty());
        assert(labels_wire(pushed) == label_wire(label) + labels_wire(pushed.drop_first()));
        assert(labels_wire(pushed) =~= labels_wire(labels) + label_wire(label));
    } else {
        assert(pushed.drop_first() =~= labels.drop_first().push(label));
        assert(pushed.first() == labels.first());
        lemma_labels_wire_push(labels.drop_first(), label);
        assert(labels_wire(pushed) == label_wire(labels.first()) + labels_wire(
            pushed.drop_first(),
        ));
        assert(labels_wire(pushed) =~= labels_wire(labels) + label_wire(label));
    }
}

/// A name that [`domain_encodable`] admits is read back from its octets,
/// labels and order unchanged, whatever octets follow them.
pub proof fn lemma_domain_round_trip(labels: Seq<Seq<char>>, tail: Seq<u8>)
    requires
        domain_encodable(labels),
    ensures
        parse_domain(domain_wire(labels) + tail) == done(labels, tail),
    decreases labels.len(),
{
    let s = domain_wire(labels) + tail;
    if labels.len() == 0 {
        assert(labels =~= Seq::empty());
        assert(s[0] == 0u8);
        assert(s.skip(1) =~= tail);
    } else {
        let label = labels.first();
        let others = labels.drop_first();
        let text = text_wire(label);
        let after_text = domain_wire(others) + tail;
        let after_size = text + after_text;
        assert(0 < text_wire(labels[0]).len() <= 255);
        assert(parse_u8(s) == done(text.len() as u8, after_size)) by {
            assert(s[0] == text.len() as u8);
            assert(s.skip(1) =~= after_size);
        }
        assert(parse_text(after_size, text.len()) == done(label, after_text)) by {
            assert(after_size.take(text.len() as int) =~= text);
            assert(after_size.skip(text.len() as int) =~= after_text);
            encode_utf8_valid_utf8(label);
            encode_utf8_decode_utf8(label);
        }
        assert(parse_domain(after_text) == done(others, tail)) by {
            assert forall|i: int| 0 <= i < others.len() implies 0 < text_wire(
                #[trigger] others[i],
            ).len() <= 255 by {
                assert(others[i] == labels[i + 1]);
            }
            lemma_domain_round_trip(others, tail);
        }
        assert(seq![label] + others =~= labels);
    }
}

/// A name that was read can be told from its octets: every label that a
/// read gives has between 1 and 255 octets.
pub proof fn lemma_parsed_domain_encodable(s: Seq<u8>)
    ensures
        parse_domain(s).outcome matches Ok(labels) ==> domain_encodable(labels),
    decreases s.len(),
{
    if let Ok(size) = parse_u8(s).outcome {
        let text = parse_text(parse_u8(s).rest, size as nat);
        if size != 0 && text.outcome is Ok {
            let label = text.outcome->Ok_0;
            let raw = s.skip(1).take(size as int);
            decode_utf8_encode_utf8(raw);
            assert(text_wire(label).len() == size);
            lemma_parsed_domain_encodable(text.rest);
            if let Ok(others) = parse_domain(text.rest).outcome {
                let labels = seq![label] + others;
                assert forall|i: int| 0 <= i < labels.len() implies 0 < text_wire(
                    #[trigger] labels[i],
                ).len() <= 255 by {
                    if i > 0 {
                        assert(labels[i] == others[i - 1]);
                    }
                }
            }
        }
    }
}

impl Clone for Domain {
    fn clone(&self) -> (r: Self)
        ensures
            r@ == self@,
    {
        let mut labels: Vec<String> = Vec::new();
        let mut i: usize = 0;
        while i < self.0.len()
            invariant
                i <= self.0.len(),
                labels.len() == i,
                forall|j: int| 0 <= j < i ==> labels[j]@ == self.0[j]@,
            decreases self.0.len() - i,
        {
            labels.push(self.0[i].clone());
            i += 1;
        }
        Domain(labels)
    }
}

impl Domain {
    /// The root-most label: the one a root-to-leaf walk visits first.
    pub fn head(&self) -> (r: String)
        requires
            self@.len() > 0,
        ensures
            r@ == self@.last(),
    {
        self.0[self.0.len() - 1].clone()
    }

    /// The name without its root-most label: what a root-to-leaf walk has
    /// left after the first step.
    pub fn tail(&self) -> (r: Self)
        requires
            self@.len() > 0,
        ensures
            r@ == self@.drop_last(),
    {
        let mut labels: Vec<String> = Vec::new();
        let mut i: usize = 0;
        while i + 1 < self.0.len()
            invariant
                i + 1 <= self.0.len(),
                labels.len() == i,
                forall|j: int| 0 <= j < i ==> labels[j]@ == self.0[j]@,
            decreases self.0.len() - i,
        {
            labels.push(self.0[i].clone());
            i += 1;
        }
        Domain(labels)
    }

    /// Reads a name: labels up to the terminating zero octet.
    pub fn read_from_stream<S: IStream + ?Sized>(stream: &mut S) -> (r: Result<Self, DecodeError>)
        ensures
            yields(r, parse_domain(old(stream).pending()).outcome),
            final(stream).pending() == parse_domain(old(stream).pending()).rest,
    {
        let ghost start = stream.pending();
        let mut parts: Vec<String> = Vec::new();
        proof {
            lemma_prepend_nothing(parse_domain(start));
            assert(Domain(parts)@ =~= Seq::empty());
        }
        loop
            invariant
                start == old(stream).pending(),
                parse_domain(start) == prepend(Domain(parts)@, parse_domain(stream.pending())),
            decreases stream.pending().len(),
        {
            let ghost before = stream.pending();
            let ghost read = Domain(parts)@;
            let size = stream.read_u8()?;
            if size == 0 {
                proof {
                    assert(read + Seq::<Seq<char>>::empty() =~= read);
                }
                return Ok(Domain(parts));
            }
            let label = stream.read_string(size as usize)?;
            parts.push(label);
            proof {
                lemma_prepend_twice(read, seq![label@], parse_domain(stream.pending()));
                assert(Domain(parts)@ =~= read + seq![label@]);
            }
        }
    }

    /// Writes a name: each label behind its length octet, then a zero
    /// octet.
    pub fn write_to_stream<S: OStream + ?Sized>(&self, stream: &mut S)
        ensures
            final(stream).written() == old(stream).written() + domain_wire(self@),
    {
        let ghost start = stream.written();
        let mut i: usize = 0;
        while i < self.0.len()
            invariant
                i <= self.0.len(),
                stream.written() == start + labels_wire(self@.take(i as int)),
            decreases self.0.len() - i,
        {
            let part = self.0[i].clone();
            let size = part.as_str().as_bytes().len();
            stream.write_u8((size % 256) as u8);
            stream.write_string(part);
            proof {
                lemma_labels_wire_push(self@.take(i as int), self@[i as int]);
                assert(self@.take(i + 1) =~= self@.take(i as int).push(self@[i as int]));
            }
            i += 1;
        }
        stream.write_u8(0);
        proof {
            assert(self@.take(i as int) =~= self@);
        }
    }
}

} // verus!
