//! Passphrase-encrypted backups: the size limits, the order of the checks and
//! the messages of a backup that cannot be written or read back. The backup's
//! content is the serialised library; the encryption is the `age` format.
use vstd::prelude::*;
use crate::model::{Snapshot, Error, Result, invalid, fails_with};
use crate::storage::{validate_snapshot, snapshot_error};
use std::io::{Read, Write};

verus! {

/// Largest serialised library a backup may hold.
pub const MAX_BACKUP_BYTES: usize = 134_217_728;

/// Largest backup file that is read: the content limit and room for the
/// encryption's framing.
pub const MAX_ENCRYPTED_BYTES: usize = MAX_BACKUP_BYTES + 1_048_576;

/// What `age::Decryptor::new` decides of a file: that its header is a valid
/// age header followed by a nonce. It reads the bytes alone.
pub uninterp spec fn spec_age_header_ok(bytes: Seq<u8>) -> bool;

/// What `age::Decryptor::is_scrypt` answers for a file whose header is valid:
/// that its header holds a passphrase (scrypt) recipient. It reads the header
/// alone.
pub uninterp spec fn spec_age_scrypt(bytes: Seq<u8>) -> bool;

/// The plaintext that the age file holds under the passphrase: the content
/// that was encrypted into it with that passphrase, or none when the
/// passphrase opens no content of the file.
pub uninterp spec fn spec_age_plaintext(file: Seq<u8>, passphrase: Seq<char>) -> Option<Seq<u8>>;

/// `age::Decryptor::new(bytes).is_ok()`: whether the header parses.
#[verifier::external_body]
fn header_ok(bytes: &[u8]) -> (r: bool)
    ensures
        r == spec_age_header_ok(bytes@),
{
    age::Decryptor::new(bytes).is_ok()
}

/// `age::Decryptor::new(bytes)` and `Decryptor::is_scrypt`: whether the file
/// is encrypted to a passphrase.
#[verifier::external_body]
fn passphrase_protected(bytes: &[u8]) -> (r: bool)
    requires
        spec_age_header_ok(bytes@),
    ensures
        r == spec_age_scrypt(bytes@),
{
    match age::Decryptor::new(bytes) {
        Ok(d) => d.is_scrypt(),
        Err(_) => false,
    }
}

/// The outcome of decrypting a backup.
#[derive(Debug)]
pub enum Decrypted {
    /// The plaintext, read up to the limit.
    Plain(Vec<u8>),
    /// The passphrase does not open the file.
    Rejected,
    /// The file opened but its content could not be read to the end.
    Broken,
}

/// `age::Decryptor::new(bytes)`, then `Decryptor::decrypt` with the passphrase
/// identity (`age::scrypt::Identity::new`), then reads the plaintext with
/// `Read::take(limit)` and `Read::read_to_end`. The plaintext has at most
/// `limit` bytes; when it has fewer, the reader reached the end of the
/// authenticated content, which is then the file's plaintext under the
/// passphrase. Whether the passphrase opens the file is not stated: it also
/// depends on the scrypt work factor this machine accepts.
#[verifier::external_body]
fn decrypt_read(bytes: &[u8], passphrase: String, limit: u64) -> (r: Decrypted)
    requires
        spec_age_header_ok(bytes@),
    ensures
        (r matches Decrypted::Plain(p) ==> p.len() <= limit && (p.len() < limit ==> spec_age_plaintext(
            bytes@,
            passphrase@,
        ) == Some(p@))),
{
    let Ok(d) = age::Decryptor::new(bytes) else {
        return Decrypted::Rejected;
    };
    let identity = age::scrypt::Identity::new(age::secrecy::SecretString::from(passphrase));
    let Ok(reader) = d.decrypt(std::iter::once(&identity as &dyn age::Identity)) else {
        return Decrypted::Rejected;
    };
    let mut plaintext = Vec::new();
    match reader.take(limit).read_to_end(&mut plaintext) {
        Ok(_) => Decrypted::Plain(plaintext),
        Err(_) => Decrypted::Broken,
    }
}

/// The outcome of encrypting a backup.
#[derive(Debug)]
pub enum Sealed {
    Done(Vec<u8>),
    /// The age header could not be written.
    NotStarted,
    /// The content could not be encrypted to the end.
    Failed,
}

/// `age::Encryptor::with_user_passphrase`, then `wrap_output` into a new
/// buffer, `write_all` of the data and `finish`: a file whose plaintext under
/// the passphrase is the data. Writing into memory cannot fail (`wrap_output`
/// fails only with its writer, and the stream writer only on a chunk after the
/// last, which this order of calls never makes), so the outcome is `Done`. Its
/// bytes are random (salt, nonce and a work factor timed on this machine) and
/// are not stated.
#[verifier::external_body]
fn seal(data: &[u8], passphrase: String) -> (r: Sealed)
    ensures
        r is Done,
        (r matches Sealed::Done(c) ==> spec_age_plaintext(c@, passphrase@) == Some(data@)),
{
    let encryptor = age::Encryptor::with_user_passphrase(age::secrecy::SecretString::from(passphrase));
    let mut encrypted = Vec::new();
    let Ok(mut writer) = encryptor.wrap_output(&mut encrypted) else {
        return Sealed::NotStarted;
    };
    if writer.write_all(data).is_err() || writer.finish().is_err() {
        return Sealed::Failed;
    }
    Sealed::Done(encrypted)
}

/// `zeroize::Zeroize::zeroize` on the buffer: overwrites its contents and
/// capacity with zeros and leaves it empty.
#[verifier::external_body]
fn wipe(data: &mut Vec<u8>)
    ensures
        final(data)@.len() == 0,
{
    zeroize::Zeroize::zeroize(data);
}

/// A backup needs a passphrase: refuses an empty one.
pub fn check_passphrase(passphrase: &str) -> (r: Result<()>)
    ensures
        passphrase@.len() == 0 ==> fails_with(r, "パスフレーズを入力してください。"@),
        passphrase@.len() > 0 ==> r is Ok,
{
    if passphrase.unicode_len() == 0 {
        return Err(invalid("パスフレーズを入力してください。"));
    }
    Ok(())
}

/// The backup that the outcome of the encryption gives.
pub fn sealed_backup(s: Sealed) -> (r: Result<Vec<u8>>)
    ensures
        (s matches Sealed::Done(c) ==> r matches Ok(x) && x@ == c@),
        s is NotStarted ==> fails_with(r, "暗号化を開始できません。"@),
        s is Failed ==> (r matches Err(e) && e is Io),
{
    match s {
        Sealed::Done(c) => Ok(c),
        Sealed::NotStarted => Err(invalid("暗号化を開始できません。")),
        Sealed::Failed => Err(Error::Io),
    }
}

/// Encrypts `data`, the serialised form of `state`, with the passphrase:
/// after checking every integrity rule of the library and the size limit.
/// The plaintext is wiped before the function returns.
pub fn encode_backup(state: &Snapshot, data: Vec<u8>, passphrase: String) -> (r: Result<Vec<u8>>)
    ensures
        (snapshot_error(state@) matches Some(m) ==> fails_with(r, m)),
        snapshot_error(state@) is None && data.len() > MAX_BACKUP_BYTES ==> fails_with(
            r,
            "バックアップのサイズが上限を超えました。"@,
        ),
        r is Ok ==> snapshot_error(state@) is None && data.len() <= MAX_BACKUP_BYTES,
        (r matches Err(e) ==> snapshot_error(state@) is Some || data.len() > MAX_BACKUP_BYTES || error_is(
            e,
            "暗号化を開始できません。"@,
        ) || e is Io),
        snapshot_error(state@) is None && data.len() <= MAX_BACKUP_BYTES ==> r is Ok,
        (r matches Ok(c) ==> spec_age_plaintext(c@, passphrase@) == Some(data@)),
{
    let mut data = data;
    let checked = validate_snapshot(state);
    let r = match checked {
        Err(e) => Err(e),
        Ok(()) => if data.len() > MAX_BACKUP_BYTES {
            Err(invalid("バックアップのサイズが上限を超えました。"))
        } else {
            sealed_backup(seal(data.as_slice(), passphrase))
        },
    };
    wipe(&mut data);
    r
}

/// The error is the `Invalid` error with that message.
pub open spec fn error_is(e: Error, msg: Seq<char>) -> bool {
    e is Invalid && crate::model::error_text(e) == msg
}

/// The plaintext that the outcome of the decryption gives.
pub fn opened_backup(d: Decrypted) -> (r: Result<Vec<u8>>)
    ensures
        (d matches Decrypted::Plain(p) ==> if p.len() > MAX_BACKUP_BYTES {
            fails_with(r, "バックアップのサイズが上限を超えました。"@)
        } else {
            (r matches Ok(x) && x@ == p@)
        }),
        d is Rejected ==> fails_with(r, "パスフレーズが違うか、バックアップが破損しています。"@),
        d is Broken ==> fails_with(r, "バックアップの完全性を確認できません。"@),
{
    match d {
        Decrypted::Plain(p) => {
            if p.len() > MAX_BACKUP_BYTES {
                let mut p = p;
                wipe(&mut p);
                return Err(invalid("バックアップのサイズが上限を超えました。"));
            }
            Ok(p)
        },
        Decrypted::Rejected => Err(invalid("パスフレーズが違うか、バックアップが破損しています。")),
        Decrypted::Broken => Err(invalid("バックアップの完全性を確認できません。")),
    }
}

/// Decrypts a backup file with the passphrase and returns its plaintext, the
/// serialised library (which `validate_snapshot` checks once it is read):
/// the file must be within the size limit, be an age file, and be encrypted
/// to a passphrase; the passphrase must open it and its content must be
/// complete and within the content limit.
pub fn decrypt_backup(bytes: &[u8], passphrase: String) -> (r: Result<Vec<u8>>)
    ensures
        bytes.len() > MAX_ENCRYPTED_BYTES ==> fails_with(r, "バックアップのサイズが上限を超えました。"@),
        bytes.len() <= MAX_ENCRYPTED_BYTES && !spec_age_header_ok(bytes@) ==> fails_with(
            r,
            "暗号化バックアップを読み取れません。"@,
        ),
        bytes.len() <= MAX_ENCRYPTED_BYTES && spec_age_header_ok(bytes@) && !spec_age_scrypt(bytes@)
            ==> fails_with(r, "パスフレーズ形式のバックアップを選択してください。"@),
        (r matches Ok(p) ==> p.len() <= MAX_BACKUP_BYTES && bytes.len() <= MAX_ENCRYPTED_BYTES
            && spec_age_header_ok(bytes@) && spec_age_scrypt(bytes@) && spec_age_plaintext(bytes@, passphrase@)
            == Some(p@)),
        (r matches Err(e) ==> e is Invalid),
{
    if bytes.len() > MAX_ENCRYPTED_BYTES {
        return Err(invalid("バックアップのサイズが上限を超えました。"));
    }
    if !header_ok(bytes) {
        return Err(invalid("暗号化バックアップを読み取れません。"));
    }
    if !passphrase_protected(bytes) {
        return Err(invalid("パスフレーズ形式のバックアップを選択してください。"));
    }
    let limit: u64 = MAX_BACKUP_BYTES as u64 + 1;
    opened_backup(decrypt_read(bytes, passphrase, limit))
}

} // verus!
