use vstd::prelude::*;

use hmac::{Hmac, KeyInit, Mac};
use sha2::Sha256;

use crate::model::WebhookEvent;
use crate::text::{hex_char, hex_lower};

verus! {

use vstd::string::StringExecFns;
use vstd::string::StringSliceAdditionalSpecFns;

/// The HMAC-SHA256 tag of `msg` under `key`; a function of its inputs
/// alone.
pub uninterp spec fn hmac_sha256_of(key: Seq<u8>, msg: Seq<u8>) -> Seq<u8>;

/// Relies on hmac's Hmac over sha2's Sha256: the 32-byte HMAC-SHA256 tag.
/// HMAC accepts keys of any length, so building the instance cannot fail.
#[verifier::external_body]
fn hmac_sha256(key: &[u8], msg: &[u8]) -> (r: Vec<u8>)
    ensures
        r@ == hmac_sha256_of(key@, msg@),
        r@.len() == 32,
{
    let mut mac = <Hmac<Sha256> as KeyInit>::new_from_slice(key).unwrap();
    Mac::update(&mut mac, msg);
    mac.finalize().into_bytes().to_vec()
}

/// The decimal rendering of `n`, without leading zeros.
pub open spec fn dec_str(n: nat) -> Seq<char>
    decreases n,
{
    if n < 10 {
        seq![hex_char(n)]
    } else {
        dec_str(n / 10).push(hex_char(n % 10))
    }
}

/// Renders `n` in decimal.
pub fn u64_to_dec(n: u64) -> (r: String)
    ensures
        r@ == dec_str(n as nat),
    decreases n,
{
    if n < 10 {
        let mut out = String::new();
        out.push(crate::text::hex_char_of(n as u8));
        proof {
            assert(out@ =~= seq![hex_char(n as nat)]);
        }
        out
    } else {
        let mut out = u64_to_dec(n / 10);
        out.push(crate::text::hex_char_of((n % 10) as u8));
        out
    }
}

/// One character of JSON string content: quotes, backslashes and the named
/// control characters are escaped, other control characters take the
/// four-digit escape, everything else stands as itself.
pub open spec fn escape_char(c: char) -> Seq<char> {
    if c == '"' {
        seq!['\\', '"']
    } else if c == '\\' {
        seq!['\\', '\\']
    } else if c == '\n' {
        seq!['\\', 'n']
    } else if c == '\r' {
        seq!['\\', 'r']
    } else if c == '\t' {
        seq!['\\', 't']
    } else if (c as u32) < 32 {
        seq!['\\', 'u', '0', '0', hex_char((c as u32 / 16) as nat), hex_char((c as u32 % 16) as nat)]
    } else {
        seq![c]
    }
}

/// The JSON-escaped content of a string.
pub open spec fn json_escaped(s: Seq<char>) -> Seq<char>
    decreases s.len(),
{
    if s.len() == 0 {
        Seq::empty()
    } else {
        json_escaped(s.drop_last()) + escape_char(s.last())
    }
}

/// Appends the JSON-escaped content of `s` to `out`.
fn escape_into(out: &mut String, s: &String)
    ensures
        final(out)@ == old(out)@ + json_escaped(s@),
{
    let ghost sv = s@;
    let n = s.as_str().unicode_len();
    let mut i: usize = 0;
    proof {
        assert(old(out)@ + json_escaped(sv.subrange(0, 0)) =~= old(out)@);
    }
    while i < n
        invariant
            0 <= i <= n,
            n == sv.len(),
            s@ == sv,
            out@ == old(out)@ + json_escaped(sv.subrange(0, i as int)),
        decreases n - i,
    {
        let c = s.as_str().get_char(i);
        let u = c as u32;
        if c == '"' {
            out.push('\\');
            out.push('"');
        } else if c == '\\' {
            out.push('\\');
            out.push('\\');
        } else if c == '\n' {
            out.push('\\');
            out.push('n');
        } else if c == '\r' {
            out.push('\\');
            out.push('r');
        } else if c == '\t' {
            out.push('\\');
            out.push('t');
        } else if u < 32 {
            out.push('\\');
            out.push('u');
            out.push('0');
            out.push('0');
            out.push(crate::text::hex_char_of((u / 16) as u8));
            out.push(crate::text::hex_char_of((u % 16) as u8));
        } else {
            out.push(c);
        }
        proof {
            let pre = sv.subrange(0, i as int);
            let cur = sv.subrange(0, i + 1);
            assert(cur.drop_last() =~= pre);
            assert(cur.last() == sv[i as int]);
            assert(out@ =~= old(out)@ + (json_escaped(pre) + escape_char(sv[i as int])));
        }
        i += 1;
    }
    proof {
        assert(sv.subrange(0, n as int) =~= sv);
    }
}

/// The JSON body of a webhook delivery: the envelope
/// `{event_type, data, invoice_id, timestamp}` with the payload's fields
/// under `data`, every string JSON-escaped and numbers in decimal.
pub open spec fn webhook_body_spec(p: WebhookEvent, invoice_id: Seq<char>, ts: nat) -> Seq<char> {
    "{\"event_type\":\""@ + event_type_name(p) + "\",\"data\":"@ + event_data_json(p)
        + ",\"invoice_id\":\""@ + json_escaped(invoice_id) + "\",\"timestamp\":"@ + dec_str(ts)
        + "}"@
}

/// The tag naming each event kind on the wire.
pub open spec fn event_type_name(p: WebhookEvent) -> Seq<char> {
    match p {
        WebhookEvent::TxDetected { .. } => "tx_detected"@,
        WebhookEvent::TxConfirmed { .. } => "tx_confirmed"@,
        WebhookEvent::InvoicePaid { .. } => "invoice_paid"@,
        WebhookEvent::InvoiceExpired { .. } => "invoice_expired"@,
    }
}

/// The JSON object carrying each event kind's fields.
pub open spec fn event_data_json(p: WebhookEvent) -> Seq<char> {
    match p {
        WebhookEvent::TxDetected { invoice_id, tx_hash, amount, currency } => "{\"invoice_id\":\""@
            + json_escaped(invoice_id@) + "\",\"tx_hash\":\""@ + json_escaped(tx_hash@)
            + "\",\"amount\":\""@ + json_escaped(amount@) + "\",\"currency\":\""@ + json_escaped(
            currency@,
        ) + "\"}"@,
        WebhookEvent::TxConfirmed { invoice_id, tx_hash, confirmations } => "{\"invoice_id\":\""@
            + json_escaped(invoice_id@) + "\",\"tx_hash\":\""@ + json_escaped(tx_hash@)
            + "\",\"confirmations\":"@ + dec_str(confirmations as nat) + "}"@,
        WebhookEvent::InvoicePaid { invoice_id, paid_amount } => "{\"invoice_id\":\""@
            + json_escaped(invoice_id@) + "\",\"paid_amount\":\""@ + json_escaped(paid_amount@)
            + "\"}"@,
        WebhookEvent::InvoiceExpired { invoice_id } => "{\"invoice_id\":\""@ + json_escaped(
            invoice_id@,
        ) + "\"}"@,
    }
}

/// Builds the JSON body for one webhook delivery at time `ts`.
pub fn build_webhook_body(p: &WebhookEvent, invoice_id: &String, ts: u64) -> (r: String)
    ensures
        r@ == webhook_body_spec(*p, invoice_id@, ts as nat),
{
    let mut out = String::from_str("{\"event_type\":\"");
    match p {
        WebhookEvent::TxDetected { .. } => out.append("tx_detected"),
        WebhookEvent::TxConfirmed { .. } => out.append("tx_confirmed"),
        WebhookEvent::InvoicePaid { .. } => out.append("invoice_paid"),
        WebhookEvent::InvoiceExpired { .. } => out.append("invoice_expired"),
    }
    out.append("\",\"data\":");
    match p {
        WebhookEvent::TxDetected { invoice_id: pid, tx_hash, amount, currency } => {
            out.append("{\"invoice_id\":\"");
            escape_into(&mut out, pid);
            out.append("\",\"tx_hash\":\"");
            escape_into(&mut out, tx_hash);
            out.append("\",\"amount\":\"");
            escape_into(&mut out, amount);
            out.append("\",\"currency\":\"");
            escape_into(&mut out, currency);
            out.append("\"}");
        },
        WebhookEvent::TxConfirmed { invoice_id: pid, tx_hash, confirmations } => {
            out.append("{\"invoice_id\":\"");
            escape_into(&mut out, pid);
            out.append("\",\"tx_hash\":\"");
            escape_into(&mut out, tx_hash);
            out.append("\",\"confirmations\":");
            let conf = u64_to_dec(*confirmations);
            out.append(conf.as_str());
            out.append("}");
        },
        WebhookEvent::InvoicePaid { invoice_id: pid, paid_amount } => {
            out.append("{\"invoice_id\":\"");
            escape_into(&mut out, pid);
            out.append("\",\"paid_amount\":\"");
            escape_into(&mut out, paid_amount);
            out.append("\"}");
        },
        WebhookEvent::InvoiceExpired { invoice_id: pid } => {
            out.append("{\"invoice_id\":\"");
            escape_into(&mut out, pid);
            out.append("\"}");
        },
    }
    out.append(",\"invoice_id\":\"");
    escape_into(&mut out, invoice_id);
    out.append("\",\"timestamp\":");
    let tss = u64_to_dec(ts);
    out.append(tss.as_str());
    out.append("}");
    out
}

/// The value of the signature header for a webhook body signed with
/// `secret`: `sha256=` followed by the tag in lowercase hex.
pub fn webhook_signature(secret: &str, body: &str) -> (r: String)
    ensures
        r@ == "sha256="@ + hex_lower(hmac_sha256_of(secret.spec_bytes(), body.spec_bytes())),
{
    let tag = hmac_sha256(secret.as_bytes(), body.as_bytes());
    let hex = crate::text::to_hex(&tag);
    let mut out = String::from_str("sha256=");
    out.append(hex.as_str());
    out
}

} // verus!
