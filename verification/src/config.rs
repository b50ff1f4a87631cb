//! Run configuration: the values the invocation surface supplies (ledger
//! target and endpoint, identity credential, a development-mode flag that
//! relaxes trust-root verification, and the claim lease). Built once,
//! validated, and passed by reference into the run; no ambient global state.
use vstd::prelude::*;
use vstd::string::StringSliceAdditionalSpecFns;

verus! {

/// The byte spelling of the textual boolean `true`.
pub open spec fn true_bytes() -> Seq<u8> {
    seq![116u8, 114u8, 117u8, 101u8]
}

/// The byte spelling of the textual boolean `false`.
pub open spec fn false_bytes() -> Seq<u8> {
    seq![102u8, 97u8, 108u8, 115u8, 101u8]
}

/// Parses a textual boolean flag: exactly the spelling `true` yields true and
/// exactly `false` yields false; anything else is rejected.
pub fn parse_bool_flag(s: &str) -> (r: Option<bool>)
    ensures
        r == Some(true) <==> s.spec_bytes() == true_bytes(),
        r == Some(false) <==> s.spec_bytes() == false_bytes(),
{
    let b = s.as_bytes();
    if b.len() == 4 && b[0] == 116u8 && b[1] == 114u8 && b[2] == 117u8 && b[3] == 101u8 {
        proof {
            assert(s.spec_bytes() =~= true_bytes());
        }
        Some(true)
    } else if b.len() == 5 && b[0] == 102u8 && b[1] == 97u8 && b[2] == 108u8 && b[3] == 115u8
        && b[4] == 101u8 {
        proof {
            assert(s.spec_bytes() =~= false_bytes());
        }
        Some(false)
    } else {
        proof {
            if s.spec_bytes() == true_bytes() {
                assert(b@.len() == 4 && b@[0] == 116u8 && b@[1] == 114u8 && b@[2] == 117u8
                    && b@[3] == 101u8);
            }
            if s.spec_bytes() == false_bytes() {
                assert(b@.len() == 5 && b@[0] == 102u8 && b@[1] == 97u8 && b@[2] == 108u8
                    && b@[3] == 115u8 && b@[4] == 101u8);
            }
        }
        None
    }
}

#[verifier::external_type_specification]
#[verifier::external_body]
pub struct ExPrincipal(candid::Principal);

/// Whether a text spells a principal (base32 groups with a matching check
/// sequence): `candid::Principal::from_text` succeeds on exactly these texts,
/// and its success depends on the text alone.
pub uninterp spec fn principal_text_valid(s: Seq<char>) -> bool;

/// Relies on candid::Principal::from_text: parses the textual form of a
/// principal; whether it succeeds is a function of the text alone.
#[verifier::external_body]
fn parse_principal(s: &str) -> (r: Option<candid::Principal>)
    ensures
        r is Some <==> principal_text_valid(s@),
{
    candid::Principal::from_text(s).ok()
}

/// Configuration of one run, assembled at process start from the recognized
/// options and handed by reference to the dispatcher and reconciler.
pub struct RunConfig {
    /// The ledger canister's identity, parsed from its textual form.
    pub ledger_principal: candid::Principal,
    /// Textual identity of the ledger canister holding the notifications.
    pub ledger_target: String,
    /// Network endpoint of the ledger.
    pub ledger_endpoint: String,
    /// Identity credential material used to authenticate to the ledger.
    pub identity_credential: String,
    /// Development mode: fetch a fresh trust root instead of the pinned one.
    pub development_mode: bool,
    /// Lease length of one delivery claim; a stale claim may be retaken after
    /// this many time units.
    pub claim_lease: u64,
}

impl RunConfig {
    /// A usable configuration names its ledger, endpoint and credential and
    /// has a positive claim lease.
    pub open spec fn wf(self) -> bool {
        &&& self.ledger_target@.len() > 0
        &&& self.ledger_endpoint@.len() > 0
        &&& self.identity_credential@.len() > 0
        &&& self.claim_lease >= 1
    }

    /// Validates and assembles the configuration. The development flag comes
    /// as text and must spell a boolean exactly; empty names and a zero lease
    /// are rejected.
    pub fn build(
        ledger_target: String,
        ledger_endpoint: String,
        identity_credential: String,
        development_flag: &str,
        claim_lease: u64,
    ) -> (r: Option<RunConfig>)
        ensures
            r matches Some(c) ==> c.wf()
                && c.ledger_target == ledger_target
                && c.ledger_endpoint == ledger_endpoint
                && c.identity_credential == identity_credential
                && (c.development_mode <==> development_flag.spec_bytes() == true_bytes()),
            r is None <==> (ledger_target@.len() == 0 || ledger_endpoint@.len() == 0
                || identity_credential@.len() == 0 || claim_lease == 0
                || !principal_text_valid(ledger_target@)
                || (development_flag.spec_bytes() != true_bytes()
                    && development_flag.spec_bytes() != false_bytes())),
    {
        let development_mode = match parse_bool_flag(development_flag) {
            Some(v) => v,
            None => {
                return None;
            },
        };
        let ledger_principal = match parse_principal(ledger_target.as_str()) {
            Some(p) => p,
            None => {
                return None;
            },
        };
        if ledger_target.as_str().is_empty() || ledger_endpoint.as_str().is_empty()
            || identity_credential.as_str().is_empty() || claim_lease == 0 {
            return None;
        }
        Some(RunConfig {
            ledger_principal,
            ledger_target,
            ledger_endpoint,
            identity_credential,
            development_mode,
            claim_lease,
        })
    }
}

} // verus!
