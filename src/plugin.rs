use crate::sink::{or_default, text_setting, DEFAULT_NATS_URL, DEFAULT_SUBJECT};
use vstd::prelude::*;

verus! {

/// The account-update plugin: forwards updates of one target wallet, or of
/// every account where no target is configured.
#[derive(Debug)]
pub struct LoggerPlugin {
    target_wallet: Option<[u8; 32]>,
}

/// What `bs58::decode` makes of a text: the bytes it encodes, or `None` when it
/// is not base58.
pub uninterp spec fn base58_bytes(text: Seq<char>) -> Option<Seq<u8>>;

/// The base58 text of some bytes, as `bs58::encode` writes it.
pub uninterp spec fn base58_text(bytes: Seq<u8>) -> Seq<char>;

#[verifier::external_type_specification]
#[verifier::external_body]
pub struct ExBase58DecodeError(bs58::decode::Error);

/// Relies on `bs58::decode(..).into_vec()`: the bytes that the text encodes,
/// or an error when it is not base58 text; the outcome depends on the text
/// alone.
#[verifier::external_body]
fn decode_base58(text: &str) -> (r: Result<Vec<u8>, bs58::decode::Error>)
    ensures
        r is Ok <==> base58_bytes(text@) is Some,
        r is Ok ==> base58_bytes(text@) == Some(r->Ok_0@),
{
    bs58::decode(text).into_vec()
}

/// Relies on `bs58::encode(..).into_string()`: the base58 text of the bytes,
/// which depends on the bytes alone, and which `bs58::decode` turns back into
/// the same bytes (leading zero bytes are written as leading `1`s).
#[verifier::external_body]
fn encode_base58(bytes: &[u8]) -> (r: String)
    ensures
        r@ == base58_text(bytes@),
        base58_bytes(r@) == Some(bytes@),
{
    bs58::encode(bytes).into_string()
}

/// Whether a character is an ASCII decimal digit.
pub open spec fn is_digit(c: char) -> bool {
    '0' <= c && c <= '9'
}

/// A UTC timestamp as `TIMESTAMP_FORMAT` writes one for a time after 1970:
/// the year (four digits, or `+` and more digits past 9999), then
/// `-MM-DD HH:MM:SS`, every field zero-padded to two digits.
pub open spec fn is_timestamp_text(t: Seq<char>) -> bool {
    let n = t.len() as int;
    &&& n >= 19
    &&& t[n - 15] == '-' && t[n - 12] == '-' && t[n - 9] == ' ' && t[n - 6] == ':' && t[n - 3] == ':'
    &&& forall|i: int|
        n - 15 <= i < n && i != n - 15 && i != n - 12 && i != n - 9 && i != n - 6 && i != n - 3
            ==> is_digit(#[trigger] t[i])
    &&& forall|i: int| 0 <= i < n - 15 ==> is_digit(#[trigger] t[i]) || (i == 0 && t[i] == '+')
}

/// The text that chrono writes for a time, given in seconds since 1970, with
/// the row timestamp format.
pub uninterp spec fn utc_text(secs: int) -> Seq<char>;

/// The last second of the year 9999: up to it a year has four digits.
pub const LAST_FOUR_DIGIT_YEAR_SECS: i64 = 253402300799;

/// Relies on `chrono::DateTime::from_timestamp(secs, 0)` and its `format`: the
/// time as UTC text, which depends on the seconds alone. `from_timestamp`
/// returns `None` only for times outside the years chrono can hold (some
/// 262,000 years either side of year 0), so never up to the year 9999;
/// `format` writes every field zero-padded, the year with four digits from
/// 1970 to 9999 and as `+` and more digits after.
#[verifier::external_body]
fn format_utc_seconds(secs: i64, format: &str) -> (r: Option<String>)
    requires
        format@ == TIMESTAMP_FORMAT@,
    ensures
        0 <= secs <= LAST_FOUR_DIGIT_YEAR_SECS ==> r is Some,
        r matches Some(t) ==> t@ == utc_text(secs as int),
        secs >= 0 ==> (r matches Some(t) ==> is_timestamp_text(t@)),
{
    match chrono::DateTime::from_timestamp(secs, 0) {
        Some(t) => Some(t.format(format).to_string()),
        None => None,
    }
}

/// The layout of row timestamps: UTC, to the second.
pub const TIMESTAMP_FORMAT: &'static str = "%Y-%m-%d %H:%M:%S";

/// Why a target wallet was refused.
#[derive(Debug, PartialEq, Eq, Structural)]
pub enum TargetError {
    /// The text is not base58.
    InvalidBase58,
    /// The key decodes to this many bytes instead of 32.
    WrongLength(usize),
}

/// The shapes in which account notifications arrive; the oldest carries no
/// write version.
pub enum AccountInfo {
    V1 { pubkey: Vec<u8>, lamports: u64 },
    V2 { pubkey: Vec<u8>, lamports: u64, write_version: u64 },
    V3 { pubkey: Vec<u8>, lamports: u64, write_version: u64 },
}

impl AccountInfo {
    pub open spec fn key(&self) -> Seq<u8> {
        match self {
            AccountInfo::V1 { pubkey, .. } => pubkey@,
            AccountInfo::V2 { pubkey, .. } => pubkey@,
            AccountInfo::V3 { pubkey, .. } => pubkey@,
        }
    }

    pub open spec fn balance(&self) -> u64 {
        match self {
            AccountInfo::V1 { lamports, .. } => *lamports,
            AccountInfo::V2 { lamports, .. } => *lamports,
            AccountInfo::V3 { lamports, .. } => *lamports,
        }
    }

    /// The write version, 0 where the shape has none.
    pub open spec fn version(&self) -> u64 {
        match self {
            AccountInfo::V1 { .. } => 0,
            AccountInfo::V2 { write_version, .. } => *write_version,
            AccountInfo::V3 { write_version, .. } => *write_version,
        }
    }

    pub fn pubkey(&self) -> (r: &Vec<u8>)
        ensures
            r@ == self.key(),
    {
        match self {
            AccountInfo::V1 { pubkey, .. } => pubkey,
            AccountInfo::V2 { pubkey, .. } => pubkey,
            AccountInfo::V3 { pubkey, .. } => pubkey,
        }
    }

    pub fn lamports(&self) -> (r: u64)
        ensures
            r == self.balance(),
    {
        match self {
            AccountInfo::V1 { lamports, .. } => *lamports,
            AccountInfo::V2 { lamports, .. } => *lamports,
            AccountInfo::V3 { lamports, .. } => *lamports,
        }
    }

    pub fn write_version(&self) -> (r: u64)
        ensures
            r == self.version(),
    {
        match self {
            AccountInfo::V1 { .. } => 0,
            AccountInfo::V2 { write_version, .. } => *write_version,
            AccountInfo::V3 { write_version, .. } => *write_version,
        }
    }
}

/// One published row: timestamp, slot, write version, base58 account key and
/// balance.
pub struct Row {
    pub ts: String,
    pub slot: u64,
    pub write_ver: u64,
    pub pubkey: String,
    pub lamports: u128,
}

/// The row of an account notification, given its timestamp and the base58
/// text of its key.
pub fn normalize(info: &AccountInfo, slot: u64, ts: String, pubkey: String) -> (r: Row)
    ensures
        r.ts@ == ts@,
        r.slot == slot,
        r.write_ver == info.version(),
        r.pubkey@ == pubkey@,
        r.lamports == info.balance() as u128,
{
    Row { ts, slot, write_ver: info.write_version(), pubkey, lamports: info.lamports() as u128 }
}

/// The plugin's settings, each optional.
pub struct Params {
    pub target_wallet: Option<String>,
    pub nats_url: Option<String>,
    pub nats_subject: Option<String>,
}

/// The plugin's configuration file: its settings stand under `params` or,
/// failing that, under `args`.
pub struct ConfigRoot {
    pub params: Option<Params>,
    pub args: Option<Params>,
}

/// Where the plugin publishes.
pub struct Settings {
    pub nats_url: String,
    pub nats_subject: String,
}

/// The 32-byte key that a base58 text names, or why it names none.
pub open spec fn wallet_key(text: Seq<char>) -> Result<Seq<u8>, TargetError> {
    match base58_bytes(text) {
        None => Err(TargetError::InvalidBase58),
        Some(key) => if key.len() == 32 {
            Ok(key)
        } else {
            Err(TargetError::WrongLength(key.len() as usize))
        },
    }
}

/// The settings in force: `params` where present, else `args`, else none.
pub open spec fn chosen(cfg: ConfigRoot) -> Params {
    match cfg.params {
        Some(p) => p,
        None => match cfg.args {
            Some(a) => a,
            None => Params { target_wallet: None, nats_url: None, nats_subject: None },
        },
    }
}

impl LoggerPlugin {
    /// The configured target wallet, as bytes.
    pub closed spec fn target(&self) -> Option<Seq<u8>> {
        match self.target_wallet {
            Some(t) => Some(t@),
            None => None,
        }
    }

    /// Whether an account key passes the filter.
    pub open spec fn passes(&self, key: Seq<u8>) -> bool {
        match self.target() {
            Some(t) => key == t,
            None => true,
        }
    }

    /// A target is always a whole 32-byte key.
    pub proof fn lemma_target_is_key(&self)
        ensures
            self.target() matches Some(t) ==> t.len() == 32,
    {
        if let Some(t) = self.target_wallet {
            vstd::array::array_len_matches_n(&t);
        }
    }

    /// A plugin with no target: every account passes.
    pub fn new() -> (r: Self)
        ensures
            r.target() is None,
    {
        LoggerPlugin { target_wallet: None }
    }

    /// Makes `key` the target wallet; a key of other than 32 bytes is refused
    /// and leaves the plugin as it was.
    pub fn set_target_wallet(&mut self, key: &[u8]) -> (r: Result<(), TargetError>)
        ensures
            key@.len() == 32 ==> r is Ok && final(self).target() == Some(key@),
            key@.len() != 32 ==> r == Err::<(), TargetError>(TargetError::WrongLength(key@.len() as usize))
                && final(self).target() == old(self).target(),
    {
        if key.len() != 32 {
            return Err(TargetError::WrongLength(key.len()));
        }
        let mut arr = [0u8; 32];
        let mut i: usize = 0;
        while i < 32
            invariant
                i <= 32,
                key@.len() == 32,
                forall|j: int| 0 <= j < i ==> arr@[j] == key@[j],
            decreases 32 - i,
        {
            arr[i] = key[i];
            i = i + 1;
        }
        assert(arr@ =~= key@);
        self.target_wallet = Some(arr);
        Ok(())
    }

    /// Makes the wallet whose base58 text is `b58` the target.
    pub fn set_target_wallet_from_b58(&mut self, b58: &str) -> (r: Result<(), TargetError>)
        ensures
            wallet_key(b58@) is Ok ==> r is Ok && final(self).target() == Some(wallet_key(b58@)->Ok_0),
            wallet_key(b58@) is Err ==> r == Err::<(), TargetError>(wallet_key(b58@)->Err_0)
                && final(self).target() == old(self).target(),
    {
        match decode_base58(b58) {
            Err(_) => Err(TargetError::InvalidBase58),
            Ok(bytes) => self.set_target_wallet(bytes.as_slice()),
        }
    }

    /// Applies a configuration: sets the target wallet where one is given and
    /// returns where to publish, with the defaults for what is not given.
    pub fn load_target_from_config(&mut self, cfg: ConfigRoot) -> (r: Result<Settings, TargetError>)
        ensures
            chosen(cfg).target_wallet is None ==> r is Ok && final(self).target() == old(self).target(),
            chosen(cfg).target_wallet matches Some(t) ==> {
                &&& wallet_key(t@) is Ok ==> r is Ok && final(self).target() == Some(wallet_key(t@)->Ok_0)
                &&& wallet_key(t@) is Err ==> r == Err::<Settings, TargetError>(wallet_key(t@)->Err_0)
                    && final(self).target() == old(self).target()
            },
            r is Ok ==> r->Ok_0.nats_url@ == or_default(chosen(cfg).nats_url, DEFAULT_NATS_URL@),
            r is Ok ==> r->Ok_0.nats_subject@ == or_default(chosen(cfg).nats_subject, DEFAULT_SUBJECT@),
    {
        let p = match cfg.params {
            Some(p) => p,
            None => match cfg.args {
                Some(a) => a,
                None => Params { target_wallet: None, nats_url: None, nats_subject: None },
            },
        };
        if let Some(s) = &p.target_wallet {
            match self.set_target_wallet_from_b58(s.as_str()) {
                Ok(()) => {},
                Err(e) => {
                    return Err(e);
                },
            }
        }
        let nats_url = text_setting(p.nats_url, DEFAULT_NATS_URL);
        let nats_subject = text_setting(p.nats_subject, DEFAULT_SUBJECT);
        Ok(Settings { nats_url, nats_subject })
    }

    /// The row to publish for an account notification at `now_secs` seconds
    /// since 1970: none during startup or for an account other than the
    /// target; otherwise the account's key in base58, its balance and write
    /// version, the slot and the time as UTC text.
    pub fn update_account(&self, info: &AccountInfo, slot: u64, is_startup: bool, now_secs: i64) -> (r: Option<Row>)
        requires
            0 <= now_secs <= LAST_FOUR_DIGIT_YEAR_SECS,
        ensures
            r is None <==> is_startup || !self.passes(info.key()),
            r is Some ==> {
                let row = r->0;
                &&& row.slot == slot
                &&& row.write_ver == info.version()
                &&& row.pubkey@ == base58_text(info.key())
                &&& base58_bytes(row.pubkey@) == Some(info.key())
                &&& row.ts@ == utc_text(now_secs as int)
                &&& is_timestamp_text(row.ts@)
                &&& row.lamports == info.balance() as u128
            },
    {
        if is_startup {
            return None;
        }
        let key = info.pubkey();
        if !self.matches_target(key.as_slice()) {
            return None;
        }
        let pubkey = encode_base58(key.as_slice());
        match format_utc_seconds(now_secs, TIMESTAMP_FORMAT) {
            Some(ts) => Some(normalize(info, slot, ts, pubkey)),
            None => None,
        }
    }

    /// Whether updates of the account `key` are forwarded.
    pub fn matches_target(&self, key: &[u8]) -> (r: bool)
        ensures
            r == self.passes(key@),
    {
        match &self.target_wallet {
            None => true,
            Some(t) => {
                if key.len() != 32 {
                    return false;
                }
                let mut i: usize = 0;
                while i < 32
                    invariant
                        i <= 32,
                        key@.len() == 32,
                        self.target() == Some(t@),
                        forall|j: int| 0 <= j < i ==> key@[j] == t@[j],
                    decreases 32 - i,
                {
                    if key[i] != t[i] {
                        return false;
                    }
                    i = i + 1;
                }
                assert(key@ =~= t@);
                true
            },
        }
    }
}

} // verus!
