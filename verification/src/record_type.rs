//! DNS record types: their numbers, names and labels, and the reading of lists
//! of them.

use std::str::FromStr;

use vstd::prelude::*;

use crate::distinct;
use crate::error::{ConfigError, ConfigFault};
use crate::text;

verus! {

/// The number of the signature records.
pub const RRSIG: u16 = 46;

/// The number of the EDNS pseudo-record.
pub const OPT: u16 = 41;

/// The number of an incremental zone transfer.
pub const IXFR: u16 = 251;

/// The number of a zone transfer.
pub const AXFR: u16 = 252;

/// A DNS record type, by its number.
#[derive(Debug, Clone, Copy, PartialEq, Eq, Structural)]
pub struct RecordType {
    pub code: u16,
}

/// `hickory_proto::serialize::binary::DecodeError`, carried through without a look inside.
#[verifier::external_type_specification]
#[verifier::external_body]
pub struct ExDecodeError(hickory_proto::serialize::binary::DecodeError);

/// The number of the record type that has a name, or what is wrong with the name.
pub uninterp spec fn type_from_name(name: Seq<char>) -> Result<
    u16,
    hickory_proto::serialize::binary::DecodeError,
>;

/// The name of the record type that has a number, where it has one.
pub uninterp spec fn name_of_type(code: u16) -> Option<Seq<char>>;

/// The numbers of the record types that DNSSEC brought.
pub open spec fn is_dnssec(code: u16) -> bool {
    ||| code == 24  // SIG
    ||| code == 25  // KEY
    ||| code == 43  // DS
    ||| code == 46  // RRSIG
    ||| code == 47  // NSEC
    ||| code == 48  // DNSKEY
    ||| code == 50  // NSEC3
    ||| code == 51  // NSEC3PARAM
    ||| code == 59  // CDS
    ||| code == 60  // CDNSKEY
    ||| code == 250  // TSIG
}

/// `RecordType::from_str` is a function of the name.
#[verifier::external_body]
pub(crate) fn named_type(name: &str) -> (found: Result<
    RecordType,
    hickory_proto::serialize::binary::DecodeError,
>)
    ensures
        match found {
            Ok(record_type) => type_from_name(name@) is Ok && type_from_name(name@)->Ok_0
                == record_type.code,
            Err(error) => type_from_name(name@) is Err && type_from_name(name@)->Err_0 == error,
        },
{
    let found = hickory_proto::rr::RecordType::from_str(name)?;
    Ok(RecordType { code: found.into() })
}

/// The `Display` form of a record type other than `RecordType::Unknown` is a
/// function of its number.
#[verifier::external_body]
pub(crate) fn known_name(record_type: RecordType) -> (name: Option<String>)
    ensures
        match name {
            Some(known) => name_of_type(record_type.code) == Some(known@),
            None => name_of_type(record_type.code) is None,
        },
{
    match hickory_proto::rr::RecordType::from(record_type.code) {
        hickory_proto::rr::RecordType::Unknown(_) => None,
        known => Some(known.to_string()),
    }
}

/// `RecordType::is_dnssec` holds of the record types that DNSSEC brought.
#[verifier::external_body]
pub(crate) fn dnssec_type(record_type: RecordType) -> (yes: bool)
    ensures
        yes == is_dnssec(record_type.code),
{
    hickory_proto::rr::RecordType::from(record_type.code).is_dnssec()
}

/// The label of a record type: its name, or `TYPE` and its number.
pub open spec fn label(code: u16) -> Seq<char> {
    match name_of_type(code) {
        Some(name) => name,
        None => "TYPE"@ + text::decimal(code as nat),
    }
}

/// The label of a record type with a number, given the name it has, where it has
/// one.
pub fn label_with(name: Option<String>, code: u16) -> (shown: String)
    ensures
        shown@ == match name {
            Some(known) => known@,
            None => "TYPE"@ + text::decimal(code as nat),
        },
{
    match name {
        Some(known) => known,
        None => {
            let mut shown = String::new();
            shown.push_str("TYPE");
            text::push_decimal(&mut shown, code as u64);
            assert(shown@ =~= "TYPE"@ + text::decimal(code as nat));
            shown
        },
    }
}

/// The label of a record type: its name, or `TYPE` and its number.
pub fn record_type_label(record_type: RecordType) -> (shown: String)
    ensures
        shown@ == label(record_type.code),
{
    label_with(known_name(record_type), record_type.code)
}

/// The labels of a list of record types.
pub open spec fn labels(types: Seq<RecordType>) -> Seq<Seq<char>> {
    types.map_values(|record_type: RecordType| label(record_type.code))
}

/// The record types that `ALL` stands for, in their order.
pub open spec fn preset_codes() -> Seq<u16> {
    seq![
        1u16, 28u16, 65305u16, 255u16, 252u16, 257u16, 59u16, 60u16, 37u16, 5u16, 62u16, 48u16,
        43u16, 13u16, 65u16, 251u16, 25u16, 15u16, 35u16, 2u16, 47u16, 50u16, 51u16, 10u16, 61u16,
        12u16, 46u16, 24u16, 53u16, 6u16, 33u16, 44u16, 64u16, 52u16, 250u16, 16u16,
    ]
}

/// The record types with the given numbers.
pub open spec fn types_of(codes: Seq<u16>) -> Seq<RecordType> {
    codes.map_values(|code: u16| RecordType { code })
}

/// The numbers of a list of record types.
pub open spec fn codes_of(types: Seq<RecordType>) -> Seq<u16> {
    types.map_values(|record_type: RecordType| record_type.code)
}

/// The record types that `ALL` stands for: A, AAAA, ANAME, ANY, AXFR, CAA, CDS,
/// CDNSKEY, CERT, CNAME, CSYNC, DNSKEY, DS, HINFO, HTTPS, IXFR, KEY, MX, NAPTR,
/// NS, NSEC, NSEC3, NSEC3PARAM, NULL, OPENPGPKEY, PTR, RRSIG, SIG, SMIMEA, SOA,
/// SRV, SSHFP, SVCB, TLSA, TSIG and TXT.
pub fn all_record_types() -> (types: Vec<RecordType>)
    ensures
        types@ == types_of(preset_codes()),
{
    let codes: Vec<u16> = vec![
        1, 28, 65305, 255, 252, 257, 59, 60, 37, 5, 62, 48, 43, 13, 65, 251, 25, 15, 35, 2, 47, 50,
        51, 10, 61, 12, 46, 24, 53, 6, 33, 44, 64, 52, 250, 16,
    ];
    assert(codes@ =~= preset_codes());
    let mut types: Vec<RecordType> = Vec::new();
    for i in 0..codes.len()
        invariant
            types@ == types_of(codes@).take(i as int),
    {
        types.push(RecordType { code: codes[i] });
        assert(types@ =~= types_of(codes@).take(i + 1));
    }
    assert(types@ =~= types_of(codes@));
    types
}

/// The number below 65536 that a text stands for: decimal digits, after a plus
/// sign or without one.
pub open spec fn type_number(s: Seq<char>) -> Option<u64> {
    if s.len() > 0 && s.first() == '+' {
        text::number(s.drop_first(), 10, 65535)
    } else {
        text::number(s, 10, 65535)
    }
}

fn parse_type_number(s: &[char]) -> (parsed: Option<u64>)
    ensures
        parsed == type_number(s@),
        parsed is Some ==> parsed->0 <= 65535,
{
    if s.len() > 0 && s[0] == '+' {
        assert(s@.subrange(1, s.len() as int) =~= s@.drop_first());
        text::parse_number(&s[1..s.len()], 10, 65535)
    } else {
        text::parse_number(s, 10, 65535)
    }
}

/// The number that a record type in text form stands for: `TYPE` and a number,
/// a number, or a name, in capital or small letters.
pub open spec fn one_type(s: Seq<char>) -> Result<u16, ConfigFault> {
    let capital = text::uppered(s);
    if "TYPE"@.is_prefix_of(capital) {
        match type_number(capital.skip(4)) {
            Some(number) => question(s, number as u16),
            None => Err(ConfigFault::InvalidTypeNumber { raw: s }),
        }
    } else if type_number(capital) is Some {
        question(s, type_number(capital)->0 as u16)
    } else {
        match type_from_name(capital) {
            Ok(code) => question(s, code),
            Err(cause) => Err(ConfigFault::UnknownType { raw: s, cause }),
        }
    }
}

/// A record type that a question may ask for: any but zero and `OPT`.
pub open spec fn question(s: Seq<char>, code: u16) -> Result<u16, ConfigFault> {
    if code == 0 || code == OPT {
        Err(ConfigFault::NotAQuestion { raw: s })
    } else {
        Ok(code)
    }
}

/// Checks that a question may ask for the record type that a text stands for.
pub fn check_question(s: &[char], record_type: RecordType) -> (checked: Result<
    RecordType,
    ConfigError,
>)
    ensures
        match checked {
            Ok(same) => same == record_type && question(s@, record_type.code) == Ok::<
                u16,
                ConfigFault,
            >(record_type.code),
            Err(error) => question(s@, record_type.code) == Err::<u16, ConfigFault>(error@),
        },
{
    if record_type.code == 0 || record_type.code == OPT {
        Err(ConfigError::NotAQuestion { raw: text::string_of(s) })
    } else {
        Ok(record_type)
    }
}

fn parse_type(s: &[char]) -> (parsed: Result<RecordType, ConfigError>)
    ensures
        match parsed {
            Ok(record_type) => one_type(s@) == Ok::<u16, ConfigFault>(record_type.code),
            Err(error) => one_type(s@) == Err::<u16, ConfigFault>(error@),
        },
{
    let capital = text::upper(s);
    let prefix = text::chars_of("TYPE");
    proof {
        reveal_strlit("TYPE");
    }
    let prefixed = capital.len() >= 4 && text::same(&capital[0..4], &prefix);
    assert(prefixed == "TYPE"@.is_prefix_of(capital@)) by {
        if capital.len() >= 4 {
            assert(capital@.subrange(0, 4) =~= capital@.take(4));
        }
    }
    let record_type = if prefixed {
        assert(capital@.subrange(4, capital.len() as int) =~= capital@.skip(4));
        match parse_type_number(&capital[4..capital.len()]) {
            Some(number) => RecordType { code: number as u16 },
            None => {
                return Err(ConfigError::InvalidTypeNumber { raw: text::string_of(s) });
            },
        }
    } else {
        match parse_type_number(&capital) {
            Some(number) => RecordType { code: number as u16 },
            None => {
                let name = text::string_of(&capital);
                match named_type(&name) {
                    Ok(record_type) => record_type,
                    Err(cause) => {
                        return Err(ConfigError::UnknownType { raw: text::string_of(s), cause });
                    },
                }
            },
        }
    };
    check_question(s, record_type)
}

/// The comma-separated parts of a list of record types that are not blank.
pub open spec fn tokens(group: Seq<char>) -> Seq<Seq<char>> {
    filled(text::split(group, ','))
}

/// The parts of a list that are not blank, without the white space around them.
pub open spec fn filled(parts: Seq<Seq<char>>) -> Seq<Seq<char>>
    decreases parts.len(),
{
    if parts.len() == 0 {
        parts
    } else {
        let part = text::trimmed(parts.last());
        if part.len() == 0 {
            filled(parts.drop_last())
        } else {
            filled(parts.drop_last()).push(part)
        }
    }
}

/// The parts of all lists of record types, in order.
pub open spec fn all_tokens(groups: Seq<Seq<char>>) -> Seq<Seq<char>>
    decreases groups.len(),
{
    if groups.len() == 0 {
        Seq::empty()
    } else {
        all_tokens(groups.drop_last()) + tokens(groups.last())
    }
}

/// The record types that one part stands for: the preset, or one.
pub open spec fn token_codes(token: Seq<char>) -> Result<Seq<u16>, ConfigFault> {
    if text::uppered(token) == "ALL"@ {
        Ok(preset_codes())
    } else {
        match one_type(token) {
            Ok(code) => Ok(seq![code]),
            Err(fault) => Err(fault),
        }
    }
}

/// The record types that the parts stand for, one after the other, or what is
/// wrong with the first that stands for none.
pub open spec fn listed_codes(tokens: Seq<Seq<char>>) -> Result<Seq<u16>, ConfigFault>
    decreases tokens.len(),
{
    if tokens.len() == 0 {
        Ok(Seq::empty())
    } else {
        match listed_codes(tokens.drop_last()) {
            Err(fault) => Err(fault),
            Ok(before) => match token_codes(tokens.last()) {
                Err(fault) => Err(fault),
                Ok(codes) => Ok(before + codes),
            },
        }
    }
}

/// A list of record types without repetitions.
pub open spec fn distinct_codes(codes: Seq<u16>) -> Seq<u16> {
    distinct::kept_first(codes, |code: u16| code)
}

/// The record types that lists of them in text form stand for, each once, in
/// the order in which they first appear.
pub open spec fn read_types(groups: Seq<Seq<char>>) -> Result<Seq<u16>, ConfigFault> {
    match listed_codes(all_tokens(groups)) {
        Err(fault) => Err(fault),
        Ok(codes) => if codes.len() == 0 {
            Err(ConfigFault::NoRecordType)
        } else {
            Ok(distinct_codes(codes))
        },
    }
}

proof fn lemma_listed_error_stays(tokens: Seq<Seq<char>>, i: int)
    requires
        0 <= i <= tokens.len(),
        listed_codes(tokens.take(i)) is Err,
    ensures
        listed_codes(tokens) == listed_codes(tokens.take(i)),
    decreases tokens.len(),
{
    if i == tokens.len() {
        assert(tokens.take(i) =~= tokens);
    } else {
        assert(tokens.drop_last().take(i) =~= tokens.take(i));
        lemma_listed_error_stays(tokens.drop_last(), i);
    }
}

proof fn lemma_all_tokens_prefix(groups: Seq<Seq<char>>, i: int)
    requires
        0 <= i <= groups.len(),
    ensures
        all_tokens(groups.take(i)).is_prefix_of(all_tokens(groups)),
    decreases groups.len(),
{
    if i == groups.len() {
        assert(groups.take(i) =~= groups);
    } else {
        lemma_all_tokens_prefix(groups.drop_last(), i);
        assert(groups.drop_last().take(i) =~= groups.take(i));
        assert(all_tokens(groups.take(i)) =~= all_tokens(groups).take(
            all_tokens(groups.take(i)).len() as int,
        ));
    }
}

/// Adds a record type to a list that does not hold it yet.
pub fn add_type(types: &mut Vec<RecordType>, record_type: RecordType)
    ensures
        final(types)@ == (if old(types)@.contains(record_type) {
            old(types)@
        } else {
            old(types)@.push(record_type)
        }),
{
    for i in 0..types.len()
        invariant
            types@ == old(types)@,
            forall|j: int| 0 <= j < i ==> types@[j] != record_type,
    {
        if types[i].code == record_type.code {
            assert(types@[i as int] == record_type);
            return ;
        }
    }
    types.push(record_type);
}

proof fn lemma_added(types: Seq<RecordType>, codes: Seq<u16>, record_type: RecordType)
    requires
        types == types_of(distinct_codes(codes)),
    ensures
        (if types.contains(record_type) {
            types
        } else {
            types.push(record_type)
        }) == types_of(distinct_codes(codes.push(record_type.code))),
{
    let key = |code: u16| code;
    let kept = distinct_codes(codes);
    let code = record_type.code;
    distinct::law_kept_first_keeps_keys(codes, key, code);
    distinct::lemma_keys_hold(kept, key, code);
    assert(distinct::keys(kept, key) =~= kept);
    assert(types.contains(record_type) == kept.contains(code)) by {
        if types.contains(record_type) {
            let i = types.index_of(record_type);
            assert(kept[i] == code);
        }
        if kept.contains(code) {
            let i = kept.index_of(code);
            assert(types[i] == record_type);
        }
    }
    assert(codes.push(code).drop_last() =~= codes);
    assert(types.push(record_type) =~= types_of(kept.push(code)));
}

/// Reads lists of record types: names, numbers, `TYPE` with a number, and `ALL`
/// for the preset, separated by commas.
pub fn parse_record_types(raw_types: &[String]) -> (parsed: Result<Vec<RecordType>, ConfigError>)
    ensures
        match parsed {
            Ok(types) => read_types(text::texts(raw_types@)) == Ok::<Seq<u16>, ConfigFault>(
                codes_of(types@),
            ),
            Err(error) => read_types(text::texts(raw_types@)) == Err::<Seq<u16>, ConfigFault>(error@),
        },
{
    let ghost groups = text::texts(raw_types@);
    let ghost every = all_tokens(groups);
    let ghost mut codes: Seq<u16> = Seq::empty();
    let mut types: Vec<RecordType> = Vec::new();
    let all = text::chars_of("ALL");
    assert(groups.take(0) =~= Seq::empty());
    assert(types@ =~= types_of(distinct_codes(codes)));
    for i in 0..raw_types.len()
        invariant
            groups == text::texts(raw_types@),
            every == all_tokens(groups),
            all@ == "ALL"@,
            listed_codes(all_tokens(groups.take(i as int))) == Ok::<Seq<u16>, ConfigFault>(codes),
            types@ == types_of(distinct_codes(codes)),
    {
        let group = text::chars_of(&raw_types[i]);
        let parts = text::split_at_char(&group, ',');
        let ghost before = all_tokens(groups.take(i as int));
        let ghost split = text::slices(parts@);
        assert(groups.take(i + 1).drop_last() =~= groups.take(i as int));
        assert(group@ == groups[i as int]);
        assert(all_tokens(groups.take(i + 1)) == before + filled(split));
        assert(split.take(0) =~= Seq::empty());
        assert(before + filled(split.take(0)) =~= before);
        for j in 0..parts.len()
            invariant
                i < raw_types.len(),
                groups == text::texts(raw_types@),
                every == all_tokens(groups),
                all@ == "ALL"@,
                split == text::slices(parts@),
                all_tokens(groups.take(i + 1)) == before + filled(split),
                listed_codes(before + filled(split.take(j as int))) == Ok::<
                    Seq<u16>,
                    ConfigFault,
                >(codes),
                types@ == types_of(distinct_codes(codes)),
        {
            let token = text::trim(parts[j]);
            let ghost so_far = before + filled(split.take(j as int));
            let ghost next = before + filled(split.take(j + 1));
            assert(split.take(j + 1).drop_last() =~= split.take(j as int));
            assert(split[j as int] == parts[j as int]@);
            if token.len() > 0 {
                assert(next =~= so_far.push(token@));
                assert(next.drop_last() =~= so_far);
                let capital = text::upper(token);
                if text::same(&capital, &all) {
                    let preset = all_record_types();
                    let ghost start = codes;
                    assert(start + preset_codes().take(0) =~= start);
                    for k in 0..preset.len()
                        invariant
                            preset@ == types_of(preset_codes()),
                            codes == start + preset_codes().take(k as int),
                            types@ == types_of(distinct_codes(codes)),
                    {
                        proof {
                            lemma_added(types@, codes, preset[k as int]);
                        }
                        add_type(&mut types, preset[k]);
                        proof {
                            assert(codes.push(preset[k as int].code) =~= start + preset_codes().take(
                                k + 1,
                            ));
                            codes = codes.push(preset[k as int].code);
                        }
                    }
                    assert(preset_codes().take(preset.len() as int) =~= preset_codes());
                } else {
                    match parse_type(token) {
                        Ok(record_type) => {
                            proof {
                                lemma_added(types@, codes, record_type);
                            }
                            add_type(&mut types, record_type);
                            proof {
                                assert(codes.push(record_type.code) =~= codes + seq![record_type.code]);
                                codes = codes.push(record_type.code);
                            }
                        },
                        Err(error) => {
                            proof {
                                assert(listed_codes(next) == Err::<Seq<u16>, ConfigFault>(error@));
                                lemma_filled_prefix(split, j + 1);
                                lemma_all_tokens_prefix(groups, i + 1);
                                assert(every.take(next.len() as int) =~= next);
                                lemma_listed_error_stays(every, next.len() as int);
                            }
                            return Err(error);
                        },
                    }
                }
            }
        }
        assert(split.take(parts.len() as int) =~= split);
    }
    assert(groups.take(raw_types.len() as int) =~= groups);
    if types.len() == 0 {
        proof {
            if codes.len() > 0 {
                distinct::law_kept_first_keeps_the_head(codes, |code: u16| code);
            }
        }
        return Err(ConfigError::NoRecordType);
    }
    assert(codes_of(types@) =~= distinct_codes(codes));
    Ok(types)
}

proof fn lemma_filled_prefix(parts: Seq<Seq<char>>, i: int)
    requires
        0 <= i <= parts.len(),
    ensures
        filled(parts.take(i)).is_prefix_of(filled(parts)),
    decreases parts.len(),
{
    if i == parts.len() {
        assert(parts.take(i) =~= parts);
    } else {
        lemma_filled_prefix(parts.drop_last(), i);
        assert(parts.drop_last().take(i) =~= parts.take(i));
        assert(filled(parts.take(i)) =~= filled(parts).take(filled(parts.take(i)).len() as int));
    }
}

} // verus!
