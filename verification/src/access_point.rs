//! One participant's access point under the Peppol AS4 profile: who it
//! speaks as and to, what it carries, where a receiver's access point is,
//! what a message must carry to be taken, what an arrived Standard
//! Business Document hands up, and what a send wraps.
//!
//! The AS4 exchange itself (the posting, the listening, the receipts and
//! the signatures) is the as4 technology's; here is what the profile
//! decides around it.

use vstd::prelude::*;
use vstd::string::*;

use crate::error::{refuse, refused, PeppolError, Refusal};
use crate::participant::{
    parse_outcome, qualified, Directory, Participant,
};
use crate::sbdh::{unwrap_outcome, wrap_outcome, Header, HeaderView, Identifier};
use crate::text::{at, chars_of, find, find_exec, join, matches_at, matches_exec};
use crate::{AGREEMENT, BILLING_INVOICE, BILLING_PROCESS, FINAL_RECIPIENT, ORIGINAL_SENDER, PARTY_TYPE};

verus! {

/// A Peppol transport as contracts speak of it.
pub struct TransportView {
    pub endpoint: Seq<char>,
    pub me: Seq<char>,
    pub partner: Seq<char>,
    pub document: (Seq<char>, Seq<char>),
    pub process: (Seq<char>, Seq<char>),
    pub directory: Map<Seq<char>, Seq<char>>,
}

/// Speaking as one participant to another under the Peppol profile: the
/// partner's access point to send to (or the address to listen at), the
/// document type and process carried, and the directory that says where a
/// participant's access point is.
pub struct PeppolTransport {
    endpoint: String,
    me: Participant,
    partner: Participant,
    document: Identifier,
    process: Identifier,
    directory: Directory,
}

impl View for PeppolTransport {
    type V = TransportView;

    closed spec fn view(&self) -> TransportView {
        TransportView {
            endpoint: self.endpoint@,
            me: self.me@,
            partner: self.partner@,
            document: self.document@,
            process: self.process@,
            directory: self.directory@,
        }
    }
}

/// Who a target sends to and where: a URL is the partner at that access
/// point; empty is the partner, where the directory or the endpoint says;
/// anything else is a participant the directory must know.
pub open spec fn resolve_outcome(t: TransportView, target: Seq<char>) -> Result<
    (Seq<char>, Seq<char>),
    (Refusal, Seq<char>),
> {
    if find(target, "://"@) is Some {
        Ok((t.partner, target))
    } else if target.len() == 0 {
        Ok(
            (
                t.partner,
                if t.directory.contains_key(t.partner) {
                    t.directory[t.partner]
                } else {
                    t.endpoint
                },
            ),
        )
    } else {
        match parse_outcome(target) {
            Err(why) => Err(why),
            Ok(receiver) => if t.directory.contains_key(receiver) {
                Ok((receiver, t.directory[receiver]))
            } else {
                Err(
                    (
                        Refusal::UnknownParticipant,
                        "no access point known for "@ + qualified(receiver)
                            + ": the directory does not hold it, and SMP lookup is not written"@,
                    ),
                )
            },
        }
    }
}

/// The authority part of an AS4 origin URI: what follows `as4://` up to
/// its query; empty where it is not an `as4://` URI.
pub open spec fn authority_of(uri: Seq<char>) -> Seq<char> {
    let rest = if matches_at(uri, "as4://"@, 0) {
        uri.skip("as4://"@.len() as int)
    } else {
        seq![]
    };
    match find(rest, seq!['?']) {
        Some(k) => rest.take(k),
        None => rest,
    }
}

/// The origin URI a document arrives with: where it came from, and what
/// its header knew.
pub open spec fn origin_of(uri: Seq<char>, header: HeaderView) -> Seq<char> {
    "peppol://"@ + authority_of(uri) + "?sender="@ + header.sender + "&receiver="@
        + header.receiver + "&instance="@ + header.instance
}

/// What an access point for `t` hands up of the Standard Business Document
/// `bytes` posted to it from `uri`: its origin and the business document,
/// or why it is refused and the words.
pub open spec fn arrived_outcome(t: TransportView, uri: Seq<char>, bytes: Seq<u8>) -> Result<
    (Seq<char>, Seq<u8>),
    (Refusal, Seq<char>),
> {
    match unwrap_outcome(bytes) {
        Err(why) => Err(why),
        Ok((header, document)) => if header.receiver != t.me {
            Err(
                (
                    Refusal::OtherReceiver,
                    "a business document for "@ + qualified(header.receiver)
                        + ", and this participant is "@ + qualified(t.me),
                ),
            )
        } else {
            Ok((origin_of(uri, header), document))
        },
    }
}

/// The header a send from `t` to `receiver` wraps, under the instance
/// identifier and creation time its User Message carries.
pub open spec fn sent_header(
    t: TransportView,
    receiver: Seq<char>,
    instance: Seq<char>,
    created: Seq<char>,
) -> HeaderView {
    HeaderView {
        sender: t.me,
        receiver,
        document: t.document,
        process: t.process,
        instance,
        created,
    }
}

/// What a send from `t` to `target` of `payload` posts, with the
/// instance identifier and creation time its User Message carries: the
/// receiver, its access point and the Standard Business Document; or why
/// it is refused and the words.
pub open spec fn outgoing_outcome(
    t: TransportView,
    target: Seq<char>,
    payload: Seq<u8>,
    instance: Seq<char>,
    created: Seq<char>,
) -> Result<(Seq<char>, Seq<char>, Seq<u8>), (Refusal, Seq<char>)> {
    match resolve_outcome(t, target) {
        Err(why) => Err(why),
        Ok((receiver, endpoint)) => {
            match wrap_outcome(sent_header(t, receiver, instance, created), payload) {
                Err(why) => Err(why),
                Ok(wrapped) => Ok((receiver, endpoint, wrapped)),
            }
        },
    }
}

/// The shape of the AS4 User Messages an access point sends: the two
/// parties and their type, the process as service, the document type as
/// action, the agreement, and the message and payload properties.
pub struct Template {
    pub from: String,
    pub to: String,
    pub service: String,
    pub action: String,
    pub party_type: String,
    pub service_type: String,
    pub agreement: String,
    pub properties: Vec<(String, String)>,
    pub payload_properties: Vec<(String, String)>,
}

/// What of an AS4 User Message the profile looks at: the party type, the
/// agreement, and the message properties in order.
pub struct MessageHead {
    pub party_type: Option<String>,
    pub agreement: Option<String>,
    pub properties: Vec<(String, String)>,
}

/// An optional text as contracts speak of it.
pub open spec fn text_view(o: Option<String>) -> Option<Seq<char>> {
    match o {
        Some(s) => Some(s@),
        None => None,
    }
}

/// The properties as contracts speak of them.
pub open spec fn property_views(p: Seq<(String, String)>) -> Seq<(Seq<char>, Seq<char>)> {
    p.map_values(|x: (String, String)| (x.0@, x.1@))
}

/// The value of the first property named `name`.
pub open spec fn first_property(p: Seq<(Seq<char>, Seq<char>)>, name: Seq<char>) -> Option<
    Seq<char>,
>
    decreases p.len(),
{
    if p.len() == 0 {
        None
    } else if p[0].0 == name {
        Some(p[0].1)
    } else {
        first_property(p.drop_first(), name)
    }
}

/// Whether a message with `party_type`, `agreement` and `properties` is
/// a Peppol one for the participant `me`: the access-point party type,
/// the agreement, and `me` as its final recipient.
pub open spec fn profile_outcome(
    party_type: Option<Seq<char>>,
    agreement: Option<Seq<char>>,
    properties: Seq<(Seq<char>, Seq<char>)>,
    me: Seq<char>,
) -> Result<(), (Refusal, Seq<char>)> {
    if party_type != Some(PARTY_TYPE@) {
        Err(
            (
                Refusal::NotAccessPoints,
                "a message whose parties are not Peppol access points: the party type is not "@
                    + PARTY_TYPE@,
            ),
        )
    } else if agreement != Some(AGREEMENT@) {
        Err(
            (
                Refusal::NotUnderAgreement,
                "a message that is not under the Peppol agreement "@ + AGREEMENT@,
            ),
        )
    } else {
        match first_property(properties, FINAL_RECIPIENT@) {
            None => Err((Refusal::NoFinalRecipient, "a message with no finalRecipient property"@)),
            Some(recipient) => match parse_outcome(recipient) {
                Err(why) => Err(why),
                Ok(named) => if named != me {
                    Err(
                        (
                            Refusal::OtherFinalRecipient,
                            "a message whose final recipient is "@ + recipient
                                + ", and this participant is "@ + qualified(me),
                        ),
                    )
                } else {
                    Ok(())
                },
            },
        }
    }
}

/// Whether `a` holds the same text as `b`.
fn same(a: &String, b: &str) -> (r: bool)
    ensures
        r == (a@ == b@),
{
    *a == b.to_owned()
}

/// Whether `message` is a Peppol one for `me`: the access-point party
/// type, the agreement, and `me` as its final recipient.
pub fn under_the_profile(message: &MessageHead, me: &Participant) -> (r: Result<(), PeppolError>)
    ensures
        match r {
            Ok(()) => profile_outcome(
                text_view(message.party_type),
                text_view(message.agreement),
                property_views(message.properties@),
                me@,
            ) is Ok,
            Err(e) => profile_outcome(
                text_view(message.party_type),
                text_view(message.agreement),
                property_views(message.properties@),
                me@,
            ) == Err::<(), _>(refused(e)) && !e.retryable,
        },
{
    let typed = match &message.party_type {
        Some(t) => same(t, PARTY_TYPE),
        None => false,
    };
    if !typed {
        let message = join(
            "a message whose parties are not Peppol access points: the party type is not ",
            PARTY_TYPE,
        );
        return Err(refuse(Refusal::NotAccessPoints, message));
    }
    let agreed = match &message.agreement {
        Some(a) => same(a, AGREEMENT),
        None => false,
    };
    if !agreed {
        let message = join("a message that is not under the Peppol agreement ", AGREEMENT);
        return Err(refuse(Refusal::NotUnderAgreement, message));
    }
    let ghost props = property_views(message.properties@);
    let mut i: usize = 0;
    assert(props.skip(0) == props);
    while i < message.properties.len()
        invariant
            i <= message.properties.len(),
            text_view(message.party_type) == Some(PARTY_TYPE@),
            text_view(message.agreement) == Some(AGREEMENT@),
            props == property_views(message.properties@),
            first_property(props, FINAL_RECIPIENT@) == first_property(props.skip(i as int), FINAL_RECIPIENT@),
        decreases message.properties.len() - i,
    {
        proof {
            assert(props.skip(i as int).drop_first() == props.skip(i + 1));
            assert(props.skip(i as int)[0] == props[i as int]);
        }
        if same(&message.properties[i].0, FINAL_RECIPIENT) {
            let recipient = message.properties[i].1.as_str();
            let named = match Participant::parse(recipient) {
                Ok(named) => named,
                Err(e) => {
                    return Err(e);
                },
            };
            if !named.same(me) {
                let mut words = join("a message whose final recipient is ", recipient);
                words.append(", and this participant is ");
                words.append(me.qualified().as_str());
                return Err(refuse(Refusal::OtherFinalRecipient, words));
            }
            return Ok(());
        }
        i = i + 1;
    }
    proof {
        assert(props.skip(i as int).len() == 0);
    }
    Err(refuse(Refusal::NoFinalRecipient, "a message with no finalRecipient property".to_owned()))
}

impl PeppolTransport {
    /// Speak as participant `me` to `partner`, whose access point is at
    /// `endpoint` (`https://ap.example/as4` or `as4://host:port/as4`)
    /// unless the [`Directory`] knows better; invoices under the billing
    /// process until [`Self::carrying`].
    pub fn new(endpoint: &str, me: Participant, partner: Participant) -> (r: PeppolTransport)
        ensures
            r@ == (TransportView {
                endpoint: endpoint@,
                me: me@,
                partner: partner@,
                document: (crate::sbdh::DOCUMENT_SCHEME@, BILLING_INVOICE@),
                process: (crate::sbdh::PROCESS_SCHEME@, BILLING_PROCESS@),
                directory: Map::empty(),
            }),
    {
        PeppolTransport {
            endpoint: endpoint.to_owned(),
            me,
            partner,
            document: Identifier::document(BILLING_INVOICE),
            process: Identifier::process(BILLING_PROCESS),
            directory: Directory::default(),
        }
    }

    /// Carry documents of type `document` under `process`.
    pub fn carrying(self, document: Identifier, process: Identifier) -> (r: PeppolTransport)
        ensures
            r@ == (TransportView { document: document@, process: process@, ..self@ }),
    {
        PeppolTransport { document, process, ..self }
    }

    /// Resolve a participant's access point from `directory`.
    pub fn resolving_from(self, directory: Directory) -> (r: PeppolTransport)
        ensures
            r@ == (TransportView { directory: directory@, ..self@ }),
    {
        PeppolTransport { directory, ..self }
    }

    /// The participant this transport speaks as.
    pub fn me(&self) -> (r: &Participant)
        ensures
            r@ == self@.me,
    {
        &self.me
    }

    /// The participant this transport sends to.
    pub fn partner(&self) -> (r: &Participant)
        ensures
            r@ == self@.partner,
    {
        &self.partner
    }

    /// The partner's access point to send to, or the address to listen
    /// at.
    pub fn endpoint(&self) -> (r: &str)
        ensures
            r@ == self@.endpoint,
    {
        self.endpoint.as_str()
    }

    /// This participant at `endpoint`, everything else as it is.
    pub fn twin(&self, endpoint: &str) -> (r: PeppolTransport)
        ensures
            r@ == (TransportView { endpoint: endpoint@, ..self@ }),
    {
        PeppolTransport {
            endpoint: endpoint.to_owned(),
            me: self.me.duplicate(),
            partner: self.partner.duplicate(),
            document: self.document.duplicate(),
            process: self.process.duplicate(),
            directory: self.directory.duplicate(),
        }
    }

    /// Who a target sends to and where: a URL is the partner at that
    /// access point; empty is the partner; anything else is a participant
    /// the directory must know, refused by name where it does not.
    pub fn resolve(&self, target: &str) -> (r: Result<(Participant, String), PeppolError>)
        ensures
            match r {
                Ok((p, e)) => resolve_outcome(self@, target@) == Ok::<_, (Refusal, Seq<char>)>(
                    (p@, e@),
                ),
                Err(e) => resolve_outcome(self@, target@) == Err::<(Seq<char>, Seq<char>), _>(
                    refused(e),
                ) && !e.retryable,
            },
    {
        let t = chars_of(target);
        let scheme_mark = chars_of("://");
        if find_exec(&t, &scheme_mark, 0, t.len()).is_some() {
            return Ok((self.partner.duplicate(), target.to_owned()));
        }
        if t.len() == 0 {
            let endpoint = match self.directory.endpoint_of(&self.partner) {
                Some(e) => e,
                None => self.endpoint.as_str(),
            };
            return Ok((self.partner.duplicate(), endpoint.to_owned()));
        }
        let receiver = match Participant::parse(target) {
            Ok(p) => p,
            Err(e) => {
                return Err(e);
            },
        };
        match self.directory.endpoint_of(&receiver) {
            Some(e) => Ok((receiver.duplicate(), e.to_owned())),
            None => {
                let mut words = join("no access point known for ", receiver.qualified().as_str());
                words.append(": the directory does not hold it, and SMP lookup is not written");
                Err(refuse(Refusal::UnknownParticipant, words))
            },
        }
    }

    /// The shape of the User Messages this transport sends to
    /// `receiver`'s access point.
    pub fn template(&self, receiver: &Participant) -> (r: Template)
        ensures
            r.from@ == self@.me,
            r.to@ == receiver@,
            r.service@ == self@.process.1,
            r.action@ == self@.document.0 + "::"@ + self@.document.1,
            r.party_type@ == PARTY_TYPE@,
            r.service_type@ == self@.process.0,
            r.agreement@ == AGREEMENT@,
            property_views(r.properties@) == seq![
                (ORIGINAL_SENDER@, self@.me),
                (FINAL_RECIPIENT@, receiver@),
            ],
            property_views(r.payload_properties@) == seq![("MimeType"@, "application/xml"@)],
    {
        let mut properties: Vec<(String, String)> = Vec::new();
        properties.push((ORIGINAL_SENDER.to_owned(), self.me.value.clone()));
        properties.push((FINAL_RECIPIENT.to_owned(), receiver.value.clone()));
        let mut payload_properties: Vec<(String, String)> = Vec::new();
        payload_properties.push(("MimeType".to_owned(), "application/xml".to_owned()));
        proof {
            assert(property_views(properties@) =~= seq![
                (ORIGINAL_SENDER@, self@.me),
                (FINAL_RECIPIENT@, receiver@),
            ]);
            assert(property_views(payload_properties@) =~= seq![("MimeType"@, "application/xml"@)]);
        }
        Template {
            from: self.me.value.clone(),
            to: receiver.value.clone(),
            service: self.process.value.clone(),
            action: self.document.qualified(),
            party_type: PARTY_TYPE.to_owned(),
            service_type: self.process.scheme.clone(),
            agreement: AGREEMENT.to_owned(),
            properties,
            payload_properties,
        }
    }

    /// What this participant's access point hands up of the Standard
    /// Business Document `bytes` posted to it from `origin_uri`: the
    /// origin `peppol://peer/as4?sender=…&receiver=…&instance=…` and the
    /// business document. Refused where the bytes are no Standard
    /// Business Document, or one for another participant.
    pub fn arrived(&self, origin_uri: &str, bytes: &[u8]) -> (r: Result<
        (String, Vec<u8>),
        PeppolError,
    >)
        ensures
            match r {
                Ok((origin, document)) => arrived_outcome(self@, origin_uri@, bytes@) == Ok::<
                    _,
                    (Refusal, Seq<char>),
                >((origin@, document@)),
                Err(e) => arrived_outcome(self@, origin_uri@, bytes@) == Err::<
                    (Seq<char>, Seq<u8>),
                    _,
                >(refused(e)) && !e.retryable,
            },
    {
        let (header, document) = match Header::unwrap(bytes) {
            Ok(read) => read,
            Err(e) => {
                return Err(e);
            },
        };
        if !header.receiver.same(&self.me) {
            let mut words = join("a business document for ", header.receiver.qualified().as_str());
            words.append(", and this participant is ");
            words.append(self.me.qualified().as_str());
            return Err(refuse(Refusal::OtherReceiver, words));
        }
        let mut origin = join("peppol://", authority(origin_uri).as_str());
        origin.append("?sender=");
        origin.append(header.sender.value.as_str());
        origin.append("&receiver=");
        origin.append(header.receiver.value.as_str());
        origin.append("&instance=");
        origin.append(header.instance.as_str());
        Ok((origin, document))
    }

    /// What a send to `target` of `payload` posts, under the instance
    /// identifier and creation time its User Message carries: the
    /// receiver, its access point, and the Standard Business Document.
    /// Refused where the target is refused or the payload is no business
    /// document.
    pub fn outgoing(&self, target: &str, payload: &[u8], instance: &str, created: &str) -> (r:
        Result<(Participant, String, Vec<u8>), PeppolError>)
        ensures
            match r {
                Ok((p, e, w)) => outgoing_outcome(self@, target@, payload@, instance@, created@)
                    == Ok::<_, (Refusal, Seq<char>)>((p@, e@, w@)),
                Err(e) => outgoing_outcome(self@, target@, payload@, instance@, created@) == Err::<
                    (Seq<char>, Seq<char>, Seq<u8>),
                    _,
                >(refused(e)) && !e.retryable,
            },
    {
        let (receiver, endpoint) = match self.resolve(target) {
            Ok(resolved) => resolved,
            Err(e) => {
                return Err(e);
            },
        };
        match self.wrapped_for(&receiver, payload, instance, created) {
            Ok(wrapped) => Ok((receiver, endpoint, wrapped)),
            Err(e) => Err(e),
        }
    }

    /// The Standard Business Document a send to `receiver` of `payload`
    /// posts, under the instance identifier and creation time its User
    /// Message carries. Refused where the payload is no business document.
    pub fn wrapped_for(&self, receiver: &Participant, payload: &[u8], instance: &str, created: &str) -> (r:
        Result<Vec<u8>, PeppolError>)
        ensures
            match r {
                Ok(w) => wrap_outcome(sent_header(self@, receiver@, instance@, created@), payload@)
                    == Ok::<_, (Refusal, Seq<char>)>(w@),
                Err(e) => wrap_outcome(sent_header(self@, receiver@, instance@, created@), payload@)
                    == Err::<Seq<u8>, _>(refused(e)) && !e.retryable,
            },
    {
        let header = Header::stamped(
            &self.me,
            receiver,
            &self.document,
            &self.process,
            instance,
            created,
        );
        header.wrap(payload)
    }
}

/// The authority part of an AS4 origin URI.
fn authority(uri: &str) -> (r: String)
    ensures
        r@ == authority_of(uri@),
{
    let u = chars_of(uri);
    let scheme = chars_of("as4://");
    let rest: &str = if matches_exec(&u, &scheme, 0) {
        uri.substring_char(scheme.len(), u.len())
    } else {
        proof {
            reveal_strlit("");
        }
        ""
    };
    let r = chars_of(rest);
    let question = vec!['?'];
    assert(question@ == seq!['?']);
    match find_exec(&r, &question, 0, r.len()) {
        Some(k) => rest.substring_char(0, k).to_owned(),
        None => rest.to_owned(),
    }
}

} // verus!
