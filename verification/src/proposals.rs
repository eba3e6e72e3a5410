//! Proposal rows.
//!
//! A created proposal becomes one row with status `Created`. A
//! `PublishEdit` proposal prefers the id of the edit it publishes, so
//! the proposal and its edit share an id; it falls back to the on-chain
//! proposal id when that parses as a UUID, and to a fresh random id as
//! a last resort. Every other proposal type carries the id derived from
//! `(dao, proposal_id, plugin)`. Executed proposals are marked by the
//! on-chain ids that parse as UUIDs; the rest are ignored.

use vstd::prelude::*;
use vstd::string::StrSliceExecFns;
use crate::ids::{checksum_address, checksum_chars, derive_space_id, geo_network, spec_space_id};
use crate::uid::{parse_uuid_chars, Uid};
use crate::{ExecutedProposal, ProposalCreated};

verus! {

/// What a proposal proposes.
#[derive(Clone, Copy, Debug, PartialEq, Eq, Structural)]
pub enum ProposalType {
    PublishEdit,
    AddMember,
    RemoveMember,
    AddEditor,
    RemoveEditor,
    AddSubspace,
    RemoveSubspace,
}

/// Where a proposal stands in its lifecycle.
#[derive(Clone, Copy, Debug, PartialEq, Eq, Structural)]
pub enum ProposalStatus {
    Created,
    Executed,
    Failed,
    Expired,
}

/// One proposal row.
#[derive(Clone, Debug)]
pub struct ProposalItem {
    pub id: Uid,
    pub space_id: Uid,
    pub proposal_type: ProposalType,
    pub creator: String,
    pub start_time: i64,
    pub end_time: i64,
    pub status: ProposalStatus,
    pub content_uri: Option<String>,
    pub address: Option<String>,
    pub created_at_block: u64,
}

/// The text is an optional sign followed by at least one decimal digit
/// and nothing else.
pub open spec fn int_text_wf(s: Seq<char>) -> bool {
    let ds = digits_part(s);
    ds.len() > 0 && forall|i: int| 0 <= i < ds.len() ==> is_digit(#[trigger] ds[i])
}

/// The digits of an integer text: everything after a leading sign.
pub open spec fn digits_part(s: Seq<char>) -> Seq<char> {
    if s.len() > 0 && (s[0] == '-' || s[0] == '+') {
        s.skip(1)
    } else {
        s
    }
}

/// The text denotes a negative number.
pub open spec fn int_text_negative(s: Seq<char>) -> bool {
    s.len() > 0 && s[0] == '-'
}

pub open spec fn is_digit(c: char) -> bool {
    '0' <= c && c <= '9'
}

/// The value of a digit string.
pub open spec fn digits_val(s: Seq<char>) -> int
    decreases s.len(),
{
    if s.len() == 0 {
        0
    } else {
        digits_val(s.drop_last()) * 10 + (s.last() as int - 48)
    }
}

/// What `str::parse::<i64>` followed by `unwrap_or(0)` computes: the
/// denoted value when the text is well-formed and in range, zero
/// otherwise.
pub open spec fn parse_i64_or_zero_spec(s: Seq<char>) -> int {
    if !int_text_wf(s) {
        0
    } else {
        let mag = digits_val(digits_part(s));
        if int_text_negative(s) {
            if mag <= 0x8000000000000000 {
                -mag
            } else {
                0
            }
        } else {
            if mag <= 0x7fffffffffffffff {
                mag
            } else {
                0
            }
        }
    }
}

/// A digit string's value is non-negative.
proof fn lemma_digits_val_nonneg(s: Seq<char>)
    requires
        forall|i: int| 0 <= i < s.len() ==> is_digit(#[trigger] s[i]),
    ensures
        digits_val(s) >= 0,
    decreases s.len(),
{
    if s.len() > 0 {
        lemma_digits_val_nonneg(s.drop_last());
    }
}

/// Parse decimal text as a 64-bit integer, with zero for anything that
/// does not parse or does not fit.
pub fn parse_i64_or_zero(s: &str) -> (r: i64)
    ensures
        r as int == parse_i64_or_zero_spec(s@),
{
    let n = s.unicode_len();
    if n == 0 {
        return 0;
    }
    let first = s.get_char(0);
    let negative = first == '-';
    let start: usize = if first == '-' || first == '+' { 1 } else { 0 };
    let ghost ds = digits_part(s@);
    proof {
        assert(ds =~= s@.skip(start as int));
    }
    if n == start {
        proof {
            assert(ds.len() == 0);
        }
        return 0;
    }
    let big: u128 = 0x10000000000000000;
    let mut mag: u128 = 0;
    let mut i: usize = start;
    while i < n
        invariant
            start <= i <= n,
            n == s@.len(),
            int_text_negative(s@) == (s@.len() > 0 && s@[0] == '-'),
            start <= 1,
            ds == digits_part(s@),
            ds =~= s@.skip(start as int),
            forall|k: int| 0 <= k < i - start ==> is_digit(#[trigger] ds[k]),
            big == 0x10000000000000000,
            digits_val(ds.take(i - start)) >= 0,
            if digits_val(ds.take(i - start)) < big as int {
                mag as int == digits_val(ds.take(i - start))
            } else {
                mag == big
            },
            mag <= big,
        decreases n - i,
    {
        let c = s.get_char(i);
        if !('0' <= c && c <= '9') {
            proof {
                assert(ds[i - start] == s@[i as int]);
                assert(!is_digit(digits_part(s@)[i - start]));
                assert(!int_text_wf(s@));
            }
            return 0;
        }
        let d: u128 = (c as u8 - 48) as u128;
        let ghost prefix = ds.take(i - start);
        let m2: u128 = mag * 10 + d;
        let new_mag: u128 = if m2 >= big { big } else { m2 };
        proof {
            assert(ds[i - start] == s@[i as int]);
            assert(ds.take(i + 1 - start).drop_last() =~= prefix);
            assert(ds.take(i + 1 - start).last() == ds[i - start]);
            assert(is_digit(ds[i - start]));
            assert(d as int == s@[i as int] as int - 48);
            lemma_digits_val_nonneg(ds.take(i + 1 - start));
        }
        mag = new_mag;
        i = i + 1;
    }
    proof {
        assert(ds.take(n - start) =~= ds);
        assert(int_text_wf(s@));
        assert(int_text_negative(s@) == negative);
    }
    if negative {
        if mag <= 0x8000000000000000 {
            proof {
                assert(digits_val(ds) < big as int);
            }
            if mag == 0x8000000000000000 {
                -0x7fffffffffffffffi64 - 1
            } else {
                -(mag as i64)
            }
        } else {
            proof {
                assert(digits_val(ds) >= big as int || mag as int == digits_val(ds));
            }
            0
        }
    } else {
        if mag <= 0x7fffffffffffffff {
            proof {
                assert(digits_val(ds) < big as int);
            }
            mag as i64
        } else {
            0
        }
    }
}

/// How a proposal row mirrors one created-proposal event. The id rules:
/// a `PublishEdit` takes the correlated edit id when there is one, then
/// the on-chain proposal id when it parses, and is otherwise
/// unconstrained (a fresh id); every other type carries the id derived
/// from `(dao, proposal_id, plugin)` at preprocessing.
pub open spec fn proposal_item_matches(p: ProposalCreated, item: ProposalItem, block_number: u64) -> bool {
    &&& item.status == ProposalStatus::Created
    &&& item.created_at_block == block_number
    &&& match p {
        ProposalCreated::PublishEdit {
            proposal_id,
            creator,
            start_time,
            end_time,
            content_uri,
            dao_address,
            edit_id,
            ..
        } => {
            &&& item.proposal_type == ProposalType::PublishEdit
            &&& item.space_id == spec_space_id("geo"@, checksum_chars(dao_address@))
            &&& item.creator@ == checksum_chars(creator@)
            &&& item.start_time as int == parse_i64_or_zero_spec(start_time@)
            &&& item.end_time as int == parse_i64_or_zero_spec(end_time@)
            &&& crate::values::opt_text(item.content_uri) == Some(content_uri@)
            &&& item.address is None
            &&& match edit_id {
                Some(e) => item.id == e,
                None => match parse_uuid_chars(proposal_id@) {
                    Some(u) => item.id == u,
                    None => true,
                },
            }
        },
        ProposalCreated::AddMember { id, creator, start_time, end_time, member, dao_address, .. } => {
            &&& item.proposal_type == ProposalType::AddMember
            &&& membership_like_matches(
                item,
                id,
                creator@,
                start_time@,
                end_time@,
                member@,
                dao_address@,
            )
        },
        ProposalCreated::RemoveMember {
            id,
            creator,
            start_time,
            end_time,
            member,
            dao_address,
            ..
        } => {
            &&& item.proposal_type == ProposalType::RemoveMember
            &&& membership_like_matches(
                item,
                id,
                creator@,
                start_time@,
                end_time@,
                member@,
                dao_address@,
            )
        },
        ProposalCreated::AddEditor { id, creator, start_time, end_time, editor, dao_address, .. } => {
            &&& item.proposal_type == ProposalType::AddEditor
            &&& membership_like_matches(
                item,
                id,
                creator@,
                start_time@,
                end_time@,
                editor@,
                dao_address@,
            )
        },
        ProposalCreated::RemoveEditor {
            id,
            creator,
            start_time,
            end_time,
            editor,
            dao_address,
            ..
        } => {
            &&& item.proposal_type == ProposalType::RemoveEditor
            &&& membership_like_matches(
                item,
                id,
                creator@,
                start_time@,
                end_time@,
                editor@,
                dao_address@,
            )
        },
        ProposalCreated::AddSubspace {
            id,
            creator,
            start_time,
            end_time,
            subspace,
            dao_address,
            ..
        } => {
            &&& item.proposal_type == ProposalType::AddSubspace
            &&& membership_like_matches(
                item,
                id,
                creator@,
                start_time@,
                end_time@,
                subspace@,
                dao_address@,
            )
        },
        ProposalCreated::RemoveSubspace {
            id,
            creator,
            start_time,
            end_time,
            subspace,
            dao_address,
            ..
        } => {
            &&& item.proposal_type == ProposalType::RemoveSubspace
            &&& membership_like_matches(
                item,
                id,
                creator@,
                start_time@,
                end_time@,
                subspace@,
                dao_address@,
            )
        },
    }
}

/// The shared shape of every non-publish proposal row: the derived id,
/// the space from the DAO, checksummed creator and subject address,
/// parsed times, no content URI.
pub open spec fn membership_like_matches(
    item: ProposalItem,
    id: Uid,
    creator: Seq<char>,
    start_time: Seq<char>,
    end_time: Seq<char>,
    subject: Seq<char>,
    dao_address: Seq<char>,
) -> bool {
    &&& item.id == id
    &&& item.space_id == spec_space_id("geo"@, checksum_chars(dao_address))
    &&& item.creator@ == checksum_chars(creator)
    &&& item.start_time as int == parse_i64_or_zero_spec(start_time)
    &&& item.end_time as int == parse_i64_or_zero_spec(end_time)
    &&& item.content_uri is None
    &&& crate::values::opt_text(item.address) == Some(checksum_chars(subject))
}

/// The ids of the executed proposals whose on-chain id parses as a
/// UUID, in order.
pub open spec fn executed_ids(s: Seq<ExecutedProposal>) -> Seq<Uid>
    decreases s.len(),
{
    if s.len() == 0 {
        Seq::empty()
    } else {
        executed_ids(s.drop_last()) + (match parse_uuid_chars(s.last().proposal_id@) {
            Some(u) => seq![u],
            None => Seq::empty(),
        })
    }
}

pub struct ProposalsModel;

impl ProposalsModel {
    /// One row per created proposal, in order, each mirroring its event.
    pub fn map_created_proposals(proposals: &Vec<ProposalCreated>, block_number: u64) -> (r: Vec<
        ProposalItem,
    >)
        ensures
            r@.len() == proposals@.len(),
            forall|k: int|
                0 <= k < r@.len() ==> proposal_item_matches(
                    proposals@[k],
                    #[trigger] r@[k],
                    block_number,
                ),
    {
        let mut out: Vec<ProposalItem> = Vec::new();
        let mut i: usize = 0;
        while i < proposals.len()
            invariant
                i <= proposals@.len(),
                out@.len() == i,
                forall|k: int|
                    0 <= k < i ==> proposal_item_matches(
                        proposals@[k],
                        #[trigger] out@[k],
                        block_number,
                    ),
            decreases proposals@.len() - i,
        {
            let item = match &proposals[i] {
                ProposalCreated::PublishEdit {
                    proposal_id,
                    creator,
                    start_time,
                    end_time,
                    content_uri,
                    dao_address,
                    edit_id,
                    ..
                } => {
                    let ck = checksum_address(dao_address.as_str());
                    let space_id = derive_space_id(geo_network(), ck.as_str());
                    let id = match edit_id {
                        Some(e) => *e,
                        None => match Uid::parse_str(proposal_id.as_str()) {
                            Some(u) => u,
                            None => Uid::from_byte_vec(&crate::ids::random_bytes16()),
                        },
                    };
                    ProposalItem {
                        id,
                        space_id,
                        proposal_type: ProposalType::PublishEdit,
                        creator: checksum_address(creator.as_str()),
                        start_time: parse_i64_or_zero(start_time.as_str()),
                        end_time: parse_i64_or_zero(end_time.as_str()),
                        status: ProposalStatus::Created,
                        content_uri: Some(content_uri.clone()),
                        address: None,
                        created_at_block: block_number,
                    }
                },
                ProposalCreated::AddMember {
                    id,
                    creator,
                    start_time,
                    end_time,
                    member,
                    dao_address,
                    ..
                } => Self::membership_like_item(
                    *id,
                    ProposalType::AddMember,
                    creator,
                    start_time,
                    end_time,
                    member,
                    dao_address,
                    block_number,
                ),
                ProposalCreated::RemoveMember {
                    id,
                    creator,
                    start_time,
                    end_time,
                    member,
                    dao_address,
                    ..
                } => Self::membership_like_item(
                    *id,
                    ProposalType::RemoveMember,
                    creator,
                    start_time,
                    end_time,
                    member,
                    dao_address,
                    block_number,
                ),
                ProposalCreated::AddEditor {
                    id,
                    creator,
                    start_time,
                    end_time,
                    editor,
                    dao_address,
                    ..
                } => Self::membership_like_item(
                    *id,
                    ProposalType::AddEditor,
                    creator,
                    start_time,
                    end_time,
                    editor,
                    dao_address,
                    block_number,
                ),
                ProposalCreated::RemoveEditor {
                    id,
                    creator,
                    start_time,
                    end_time,
                    editor,
                    dao_address,
                    ..
                } => Self::membership_like_item(
                    *id,
                    ProposalType::RemoveEditor,
                    creator,
                    start_time,
                    end_time,
                    editor,
                    dao_address,
                    block_number,
                ),
                ProposalCreated::AddSubspace {
                    id,
                    creator,
                    start_time,
                    end_time,
                    subspace,
                    dao_address,
                    ..
                } => Self::membership_like_item(
                    *id,
                    ProposalType::AddSubspace,
                    creator,
                    start_time,
                    end_time,
                    subspace,
                    dao_address,
                    block_number,
                ),
                ProposalCreated::RemoveSubspace {
                    id,
                    creator,
                    start_time,
                    end_time,
                    subspace,
                    dao_address,
                    ..
                } => Self::membership_like_item(
                    *id,
                    ProposalType::RemoveSubspace,
                    creator,
                    start_time,
                    end_time,
                    subspace,
                    dao_address,
                    block_number,
                ),
            };
            out.push(item);
            i = i + 1;
        }
        out
    }

    /// Build the row every non-publish proposal type shares.
    fn membership_like_item(
        id: Uid,
        proposal_type: ProposalType,
        creator: &String,
        start_time: &String,
        end_time: &String,
        subject: &String,
        dao_address: &String,
        block_number: u64,
    ) -> (item: ProposalItem)
        ensures
            item.proposal_type == proposal_type,
            membership_like_matches(
                item,
                id,
                creator@,
                start_time@,
                end_time@,
                subject@,
                dao_address@,
            ),
            item.status == ProposalStatus::Created,
            item.created_at_block == block_number,
    {
        let ck = checksum_address(dao_address.as_str());
        let space_id = derive_space_id(geo_network(), ck.as_str());
        ProposalItem {
            id,
            space_id,
            proposal_type,
            creator: checksum_address(creator.as_str()),
            start_time: parse_i64_or_zero(start_time.as_str()),
            end_time: parse_i64_or_zero(end_time.as_str()),
            status: ProposalStatus::Created,
            content_uri: None,
            address: Some(checksum_address(subject.as_str())),
            created_at_block: block_number,
        }
    }

    /// The executed proposals whose on-chain id parses as a UUID, as
    /// ids, in order; the rest are silently ignored.
    pub fn map_executed_proposals(executed_proposals: &Vec<ExecutedProposal>) -> (r: Vec<Uid>)
        ensures
            r@ == executed_ids(executed_proposals@),
    {
        let mut out: Vec<Uid> = Vec::new();
        let mut i: usize = 0;
        while i < executed_proposals.len()
            invariant
                i <= executed_proposals@.len(),
                out@ == executed_ids(executed_proposals@.take(i as int)),
            decreases executed_proposals@.len() - i,
        {
            let ghost pre = executed_proposals@.take(i as int);
            match Uid::parse_str(executed_proposals[i].proposal_id.as_str()) {
                Some(u) => out.push(u),
                None => {},
            }
            proof {
                assert(executed_proposals@.take(i + 1 as int).drop_last() =~= pre);
                assert(executed_proposals@.take(i + 1 as int).last()
                    == executed_proposals@[i as int]);
            }
            i = i + 1;
        }
        proof {
            assert(executed_proposals@.take(executed_proposals@.len() as int)
                =~= executed_proposals@);
        }
        out
    }
}

} // verus!
