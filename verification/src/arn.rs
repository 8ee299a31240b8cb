//! IAM role ARNs: account extraction and the Airflow connection id derived
//! from a role.
use vstd::prelude::*;
use crate::text::{
    chars_of, has_prefix, is_ascii_digit, is_ident_char, law_sanitized_is_identifier, owned, push_str, sanitize_identifier, sanitized,
    starts_with_at, find_char_from, string_of_range,
};

verus! {

/// Why a string is not an IAM role ARN of the shape
/// `arn:aws:iam::<12 digits>:role/<name>`.
#[derive(Debug, Clone, Copy, PartialEq, Eq)]
pub enum ArnError {
    /// Does not start with `arn:aws:iam::`.
    NotIamArn,
    /// No `:` between the account and the resource.
    MissingSeparator,
    /// The account part is not exactly 12 ASCII digits.
    BadAccount,
    /// The resource does not start with `role/`.
    NotRoleResource,
    /// Nothing follows `role/`.
    EmptyRoleName,
}

pub open spec fn all_digits(s: Seq<char>) -> bool {
    forall|i: int| 0 <= i < s.len() ==> is_ascii_digit(s[i])
}

/// The shape check of a role ARN: on success the account id and the role
/// name (everything after `role/`, paths included); otherwise the first
/// check that fails.
pub open spec fn arn_parts(arn: Seq<char>) -> Result<(Seq<char>, Seq<char>), ArnError> {
    if !has_prefix(arn, "arn:aws:iam::"@) {
        Err(ArnError::NotIamArn)
    } else {
        let rest = arn.skip(13);
        match rest.index_of_first(':') {
            None => Err(ArnError::MissingSeparator),
            Some(i) => {
                let account = rest.take(i);
                let tail = rest.skip(i + 1);
                if !(account.len() == 12 && all_digits(account)) {
                    Err(ArnError::BadAccount)
                } else if !has_prefix(tail, "role/"@) {
                    Err(ArnError::NotRoleResource)
                } else if tail.len() == 5 {
                    Err(ArnError::EmptyRoleName)
                } else {
                    Ok((account, tail.skip(5)))
                }
            },
        }
    }
}

/// The connection id `yard_<account>_<sanitized role name>`.
pub open spec fn conn_id_for(account: Seq<char>, role_name: Seq<char>) -> Seq<char> {
    "yard_"@ + account + "_"@ + sanitized(role_name)
}

/// Whether `cs[from..to]` consists of ASCII digits only.
fn digits_between(cs: &Vec<char>, from: usize, to: usize) -> (r: bool)
    requires
        from <= to <= cs.len(),
    ensures
        r == all_digits(cs@.subrange(from as int, to as int)),
{
    let mut k: usize = from;
    while k < to
        invariant
            from <= k <= to <= cs.len(),
            forall|j: int| from <= j < k ==> is_ascii_digit(cs@[j]),
        decreases to - k,
    {
        if !(cs[k] >= '0' && cs[k] <= '9') {
            assert(cs@.subrange(from as int, to as int)[k - from] == cs@[k as int]);
            return false;
        }
        k = k + 1;
    }
    assert forall|j: int| 0 <= j < to - from implies is_ascii_digit(
        cs@.subrange(from as int, to as int)[j],
    ) by {
        assert(cs@.subrange(from as int, to as int)[j] == cs@[from + j]);
    }
    true
}

/// Splits an ARN at the account separator: `(account, tail)` positions in
/// the character vector, or the error of [`arn_parts`].
fn split_role_arn(cs: &Vec<char>) -> (r: Result<(usize, usize), ArnError>)
    ensures
        match arn_parts(cs@) {
            Ok(p) => r matches Ok((colon, name_start)) && 13 <= colon && colon + 6 <= name_start
                && name_start <= cs.len() && p.0 == cs@.subrange(13, colon as int) && p.1
                == cs@.skip(name_start as int),
            Err(e) => r == Err::<(usize, usize), ArnError>(e),
        },
{
    proof {
        reveal_strlit("arn:aws:iam::");
        reveal_strlit("role/");
    }
    if !starts_with_at(cs, 0, "arn:aws:iam::") {
        assert(cs@.skip(0) =~= cs@);
        return Err(ArnError::NotIamArn);
    }
    assert(cs@.skip(0) =~= cs@);
    let ghost rest = cs@.skip(13);
    let sep = find_char_from(cs, 13, ':');
    match sep {
        None => Err(ArnError::MissingSeparator),
        Some(i) => {
            proof {
                rest.index_of_first_ensures(':');
            }
            let colon = 13 + i;
            let ghost account = rest.take(i as int);
            assert(account =~= cs@.subrange(13, colon as int));
            if i != 12 {
                return Err(ArnError::BadAccount);
            }
            if !digits_between(cs, 13, colon) {
                return Err(ArnError::BadAccount);
            }
            let ghost tail = rest.skip(i + 1);
            assert(tail =~= cs@.skip(colon + 1));
            if !starts_with_at(cs, colon + 1, "role/") {
                return Err(ArnError::NotRoleResource);
            }
            if cs.len() == colon + 6 {
                return Err(ArnError::EmptyRoleName);
            }
            assert(tail.skip(5) =~= cs@.skip(colon + 6));
            Ok((colon, colon + 6))
        },
    }
}

/// Extract the 12-digit AWS account id from an IAM role ARN, after checking
/// the whole shape of the ARN.
pub fn parse_account_from_role_arn(role_arn: &str) -> (r: Result<String, ArnError>)
    ensures
        match arn_parts(role_arn@) {
            Ok(p) => r matches Ok(a) && a@ == p.0,
            Err(e) => r == Err::<String, ArnError>(e),
        },
{
    let cs = chars_of(role_arn);
    match split_role_arn(&cs) {
        Ok((colon, _)) => Ok(string_of_range(&cs, 13, colon)),
        Err(e) => Err(e),
    }
}

/// The Airflow connection id for a role ARN: `yard_<account>_<role>`, with
/// the role name (path included) sanitized to an identifier.
pub fn derive_aws_conn_id(role_arn: &str) -> (r: Result<String, ArnError>)
    ensures
        match arn_parts(role_arn@) {
            Ok(p) => r matches Ok(c) && c@ == conn_id_for(p.0, p.1),
            Err(e) => r == Err::<String, ArnError>(e),
        },
{
    let cs = chars_of(role_arn);
    match split_role_arn(&cs) {
        Ok((colon, name_start)) => {
            let account = string_of_range(&cs, 13, colon);
            let name = string_of_range(&cs, name_start, cs.len());
            assert(cs@.subrange(name_start as int, cs.len() as int) =~= cs@.skip(name_start as int));
            let mut out = owned("yard_");
            push_str(&mut out, account.as_str());
            push_str(&mut out, "_");
            let s = sanitize_identifier(name.as_str());
            push_str(&mut out, s.as_str());
            Ok(out)
        },
        Err(e) => Err(e),
    }
}

/// Reading a role ARN undoes writing one: `arn:aws:iam::<account>:role/<name>`
/// with a 12-digit account and a non-empty name reads back as exactly that
/// account and name.
pub proof fn law_role_arn_round_trip(account: Seq<char>, name: Seq<char>)
    requires
        account.len() == 12,
        all_digits(account),
        name.len() > 0,
    ensures
        arn_parts("arn:aws:iam::"@ + account + ":role/"@ + name) == Ok::<(Seq<char>, Seq<char>), ArnError>((account, name)),
{
    reveal_strlit("arn:aws:iam::");
    reveal_strlit(":role/");
    reveal_strlit("role/");
    let arn = "arn:aws:iam::"@ + account + ":role/"@ + name;
    assert(arn.take(13) =~= "arn:aws:iam::"@);
    let rest = arn.skip(13);
    assert(rest =~= account + ":role/"@ + name);
    rest.index_of_first_ensures(':');
    assert(rest[12] == ':');
    assert(rest.contains(':'));
    let i = rest.index_of_first(':')->Some_0;
    if i < 12 {
        assert(is_ascii_digit(account[i]));
        assert(rest[i] == account[i]);
    }
    assert(i == 12);
    assert(rest.take(12) =~= account);
    let tail = rest.skip(13);
    assert(tail =~= "role/"@ + name);
    assert(tail.take(5) =~= "role/"@);
    assert(tail.skip(5) =~= name);
}

/// Only role ARNs read: whatever reads is `arn:aws:iam::<account>:role/<name>`
/// with a 12-digit account and a non-empty name, and the connection id made
/// from it is `yard_`, the account, `_` and the sanitized name, an
/// identifier made of ASCII letters, digits and `_`.
pub proof fn law_role_arn_parts(arn: Seq<char>)
    ensures
        arn_parts(arn) matches Ok((account, name)) ==> {
            &&& arn == "arn:aws:iam::"@ + account + ":role/"@ + name
            &&& account.len() == 12
            &&& all_digits(account)
            &&& name.len() > 0
            &&& forall|i: int| 0 <= i < conn_id_for(account, name).len()
                ==> is_ident_char(#[trigger] conn_id_for(account, name)[i])
        },
{
    reveal_strlit("arn:aws:iam::");
    reveal_strlit(":role/");
    reveal_strlit("role/");
    reveal_strlit("yard_");
    reveal_strlit("_");
    if arn_parts(arn) is Ok {
        let rest = arn.skip(13);
        rest.index_of_first_ensures(':');
        let i = rest.index_of_first(':')->Some_0;
        let account = rest.take(i);
        let tail = rest.skip(i + 1);
        let name = tail.skip(5);
        assert(tail =~= "role/"@ + name);
        assert(rest =~= account + seq![':'] + tail);
        assert(arn =~= "arn:aws:iam::"@ + rest);
        assert(arn =~= "arn:aws:iam::"@ + account + ":role/"@ + name);
        law_sanitized_is_identifier(name);
        let c = conn_id_for(account, name);
        assert forall|k: int| 0 <= k < c.len() implies is_ident_char(#[trigger] c[k]) by {
            if k < 5 {
                assert(c[k] == "yard_"@[k]);
            } else if k < 17 {
                assert(c[k] == account[k - 5]);
                assert(is_ascii_digit(account[k - 5]));
            } else if k == 17 {
                assert(c[k] == '_');
            } else {
                assert(c[k] == sanitized(name)[k - 18]);
            }
        }
    }
}

/// A connection id is derived from exactly the ARNs whose account can be
/// read, and it embeds that account.
pub proof fn law_conn_id_embeds_account(arn: Seq<char>)
    ensures
        arn_parts(arn) is Ok ==> has_prefix(
            conn_id_for(arn_parts(arn)->Ok_0.0, arn_parts(arn)->Ok_0.1),
            "yard_"@ + arn_parts(arn)->Ok_0.0 + "_"@,
        ),
        arn_parts(arn) is Ok ==> arn_parts(arn)->Ok_0.0.len() == 12,
{
    if arn_parts(arn) is Ok {
        let p = arn_parts(arn)->Ok_0;
        let pre = "yard_"@ + p.0 + "_"@;
        assert(conn_id_for(p.0, p.1).take(pre.len() as int) =~= pre);
    }
}

impl ArnError {
    /// The message shown for this error about `role_arn`.
    pub fn message(&self, role_arn: &str) -> (m: String)
        ensures
            m@ == arn_error_message(*self, role_arn@),
    {
        let mut m = owned("malformed role ARN '");
        push_str(&mut m, role_arn);
        push_str(&mut m, "': ");
        let detail = match self {
            ArnError::NotIamArn => "expected 'arn:aws:iam::...'",
            ArnError::MissingSeparator => "missing account/resource separator",
            ArnError::BadAccount => "account id must be 12 digits",
            ArnError::NotRoleResource => "expected resource type 'role/'",
            ArnError::EmptyRoleName => "empty role name",
        };
        push_str(&mut m, detail);
        m
    }
}

pub open spec fn arn_error_detail(e: ArnError) -> Seq<char> {
    match e {
        ArnError::NotIamArn => "expected 'arn:aws:iam::...'"@,
        ArnError::MissingSeparator => "missing account/resource separator"@,
        ArnError::BadAccount => "account id must be 12 digits"@,
        ArnError::NotRoleResource => "expected resource type 'role/'"@,
        ArnError::EmptyRoleName => "empty role name"@,
    }
}

pub open spec fn arn_error_message(e: ArnError, arn: Seq<char>) -> Seq<char> {
    "malformed role ARN '"@ + arn + "': "@ + arn_error_detail(e)
}

} // verus!
