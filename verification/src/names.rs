//! DNS names as lists of labels.

use std::str::FromStr;

use vstd::prelude::*;

verus! {

/// A DNS name: its labels in order, and whether it is fully qualified.
#[derive(Debug, Clone)]
pub struct DnsName {
    pub labels: Vec<Vec<u8>>,
    pub fqdn: bool,
}

/// `hickory_proto::ProtoError`, carried through without a look inside.
#[verifier::external_type_specification]
#[verifier::external_body]
pub struct ExProtoError(hickory_proto::ProtoError);

/// The labels of the name that a text stands for, and whether the name is fully
/// qualified; or what is wrong with the text.
pub uninterp spec fn name_from_text(text: Seq<char>) -> Result<
    (Seq<Seq<u8>>, bool),
    hickory_proto::ProtoError,
>;

/// A name in ASCII.
pub uninterp spec fn name_ascii(labels: Seq<Seq<u8>>, fqdn: bool) -> Seq<char>;

/// A name as people read it.
pub uninterp spec fn name_text(labels: Seq<Seq<u8>>, fqdn: bool) -> Seq<char>;

/// The length of labels on the wire: each with a length octet before it.
pub open spec fn labels_len(labels: Seq<Seq<u8>>) -> nat
    decreases labels.len(),
{
    if labels.len() == 0 {
        0
    } else {
        labels_len(labels.drop_last()) + 1 + labels.last().len()
    }
}

/// Labels of one to sixty-three octets that fit, with the root label, in the
/// 255 octets of a name.
pub open spec fn valid_labels(labels: Seq<Seq<u8>>) -> bool {
    &&& forall|i: int| 0 <= i < labels.len() ==> 1 <= (#[trigger] labels[i]).len() <= 63
    &&& labels_len(labels) + 1 <= 255
}

/// The octets of a list of labels.
pub open spec fn label_octets(labels: Seq<Vec<u8>>) -> Seq<Seq<u8>> {
    labels.map_values(|label: Vec<u8>| label@)
}

impl DnsName {
    /// The octets of the labels.
    pub open spec fn octets(self) -> Seq<Seq<u8>> {
        label_octets(self.labels@)
    }

    /// The labels, and whether the name is fully qualified.
    pub open spec fn view(self) -> (Seq<Seq<u8>>, bool) {
        (self.octets(), self.fqdn)
    }

    /// Whether the labels make up a name.
    pub open spec fn wf(self) -> bool {
        valid_labels(self.octets())
    }

    /// The name in ASCII.
    pub open spec fn ascii(self) -> Seq<char> {
        name_ascii(self.octets(), self.fqdn)
    }

    /// The name as people read it.
    pub open spec fn text(self) -> Seq<char> {
        name_text(self.octets(), self.fqdn)
    }

    /// `Name::from_str` is a function of the text. The labels of a name that it
    /// reads hold one to sixty-three octets each, and fit in the 255 octets of a
    /// name.
    #[verifier::external_body]
    pub(crate) fn parse(text: &str) -> (parsed: Result<DnsName, hickory_proto::ProtoError>)
        ensures
            match parsed {
                Ok(name) => name_from_text(text@) is Ok && name_from_text(text@)->Ok_0 == (
                    name.octets(),
                    name.fqdn,
                ) && name.wf(),
                Err(error) => name_from_text(text@) is Err && name_from_text(text@)->Err_0 == error,
            },
    {
        let name = hickory_proto::rr::Name::from_str(text)?;
        let labels = name.iter().map(|label| label.to_vec()).collect();
        Ok(DnsName { labels, fqdn: name.is_fqdn() })
    }

    /// `Name::to_ascii`, of the name with these labels, is a function of the
    /// labels and of whether the name is fully qualified.
    #[verifier::external_body]
    pub(crate) fn to_ascii(&self) -> (ascii: String)
        requires
            self.wf(),
        ensures
            ascii@ == name_ascii(self.octets(), self.fqdn),
    {
        let labels = self.labels.iter().map(|label| label.as_slice());
        let mut name = hickory_proto::rr::Name::from_labels(labels).unwrap();
        name.set_fqdn(self.fqdn);
        name.to_ascii()
    }

    /// The `Display` form of `Name`, of the name with these labels, is a
    /// function of the labels and of whether the name is fully qualified.
    #[verifier::external_body]
    pub(crate) fn to_text(&self) -> (shown: String)
        requires
            self.wf(),
        ensures
            shown@ == name_text(self.octets(), self.fqdn),
    {
        let labels = self.labels.iter().map(|label| label.as_slice());
        let mut name = hickory_proto::rr::Name::from_labels(labels).unwrap();
        name.set_fqdn(self.fqdn);
        name.to_string()
    }
}

} // verus!
