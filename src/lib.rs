pub mod banhammer;
pub mod buckets;
pub mod identity;
pub mod table;

pub use crate::banhammer::{
    ban_reason, check_error_ban, threshold, BanKind, BanList, BanProgress, Banhammer, BannedUserKind, Config,
    RelayerInput, TransactionError, UserClient, UserFrom, UserToken,
};
pub use crate::buckets::{BucketConfig, BucketKind, BucketName, BucketValue};
pub use crate::identity::{ClientAddr, Identity, SenderAddr, Token};
pub use crate::table::Table;
