//! Key pairs on secp256k1: an address for receiving, ECDSA signatures for
//! sending, and a transfer that checks the confirmed balance first.
use vstd::prelude::*;
use crate::blockchain::{chain_balance, tx_count, Blockchain};
use crate::digest::{hex_encode, hex_of, sha256};
use crate::transaction::Transaction;

verus! {

#[verifier::external_type_specification]
#[verifier::external_body]
pub struct ExSecretKey(secp256k1::SecretKey);

#[verifier::external_type_specification]
#[verifier::external_body]
pub struct ExPublicKey(secp256k1::PublicKey);

#[verifier::external_type_specification]
#[verifier::external_body]
pub struct ExSignature(secp256k1::ecdsa::Signature);

/// Relies on `secp256k1::Secp256k1::generate_keypair` with the operating
/// system's random source: a fresh random key pair.
#[verifier::external_body]
fn generate_keypair() -> (r: (secp256k1::SecretKey, secp256k1::PublicKey)) {
    secp256k1::Secp256k1::new().generate_keypair(&mut secp256k1::rand::rngs::OsRng)
}

/// Relies on `secp256k1::PublicKey::serialize`: the 33-byte compressed form.
#[verifier::external_body]
fn serialize_public_key(key: &secp256k1::PublicKey) -> (r: Vec<u8>)
    ensures
        r@.len() == 33,
{
    key.serialize().to_vec()
}

/// Relies on `secp256k1::Secp256k1::sign_ecdsa` over `Message::from_digest`:
/// an ECDSA signature of a 32-byte digest.
#[verifier::external_body]
fn sign_digest(digest: &[u8], key: &secp256k1::SecretKey) -> (r: secp256k1::ecdsa::Signature)
    requires
        digest@.len() == 32,
{
    let bytes: [u8; 32] = <[u8; 32]>::try_from(digest).unwrap();
    secp256k1::Secp256k1::new().sign_ecdsa(&secp256k1::Message::from_digest(bytes), key)
}

/// Relies on `secp256k1::ecdsa::Signature::serialize_der`: the DER encoding.
#[verifier::external_body]
fn signature_der(sig: &secp256k1::ecdsa::Signature) -> (r: Vec<u8>) {
    sig.serialize_der().to_vec()
}

/// The fee of a transfer: one percent of its amount, rounded down.
pub open spec fn transfer_fee(amount: u64) -> u64 {
    amount / 100
}

/// A participant's keys. A miner's wallet is tagged as such.
#[derive(Debug)]
pub struct Wallet {
    secret_key: secp256k1::SecretKey,
    /// The compressed public key, 33 bytes long.
    public_key: Vec<u8>,
    pub is_miner: bool,
}

impl Wallet {
    /// The compressed public key is 33 bytes long.
    #[verifier::type_invariant]
    spec fn key_is_compressed(&self) -> bool {
        self.public_key@.len() == 33
    }

    /// The bytes of the compressed public key.
    pub closed spec fn key_bytes(&self) -> Seq<u8> {
        self.public_key@
    }

    /// The wallet's address: the hexadecimal text of its compressed public key.
    pub open spec fn address_of(&self) -> Seq<char> {
        hex_of(self.key_bytes())
    }

    /// Whether the wallet is tagged as a miner's.
    pub closed spec fn miner(&self) -> bool {
        self.is_miner
    }

    /// The compressed public key.
    pub fn public_key(&self) -> (r: &Vec<u8>)
        ensures
            r@ == self.key_bytes(),
            r@.len() == 33,
    {
        proof {
            use_type_invariant(self);
        }
        &self.public_key
    }

    /// A wallet with a freshly generated key pair.
    pub fn new(is_miner: bool) -> (r: Self)
        ensures
            r.miner() == is_miner,
    {
        let (secret_key, public_key) = generate_keypair();
        let public_key = serialize_public_key(&public_key);
        Wallet { secret_key, public_key, is_miner }
    }

    /// The wallet's address (see `address_of`).
    pub fn address(&self) -> (r: String)
        ensures
            r@ == self.address_of(),
            r@.len() == 66,
    {
        proof {
            use_type_invariant(self);
        }
        hex_encode(self.public_key.as_slice())
    }

    /// Signs SHA-256 of `data` with the wallet's secret key.
    pub fn sign(&self, data: &[u8]) -> (r: secp256k1::ecdsa::Signature) {
        let digest = sha256(data);
        sign_digest(digest.as_slice(), &self.secret_key)
    }

    /// Sends `amount` to `receiver` with a fee of one percent: when the
    /// sender's confirmed balance covers amount and fee, a signed transaction
    /// is submitted to the pending pool; otherwise nothing changes and an error
    /// names the sender.
    pub fn send_money(&self, receiver: &Wallet, amount: u64, blockchain: &mut Blockchain) -> (r:
        Result<(), String>)
        requires
            tx_count(old(blockchain).chain@) < 0x8000_0000_0000_0000,
        ensures
            r is Ok <==> old(blockchain).balance_of(self.address_of()) >= amount + transfer_fee(
                amount,
            ),
            r is Err ==> *final(blockchain) == *old(blockchain),
            r is Err ==> r->Err_0@ == "Address: "@ + self.address_of()
                + " does not have enough funds"@,
            r is Ok ==> final(blockchain).mempool@.drop_last() == old(blockchain).mempool@,
            r is Ok ==> final(blockchain).mempool@.len() == old(blockchain).mempool@.len() + 1,
            r is Ok ==> ({
                let t = final(blockchain).mempool@.last()@;
                &&& t.sender == self.address_of()
                &&& t.receiver == receiver.address_of()
                &&& t.amount == amount
                &&& t.fee == transfer_fee(amount)
                &&& exists|der: Seq<u8>| t.signature == hex_of(der)
            }),
            final(blockchain).chain == old(blockchain).chain,
            final(blockchain).difficulty == old(blockchain).difficulty,
            final(blockchain).last_mined_time == old(blockchain).last_mined_time,
            forall|addr: Seq<char>|
                #[trigger] chain_balance(final(blockchain).chain@, addr) == chain_balance(
                    old(blockchain).chain@,
                    addr,
                ),
    {
        let fee = amount / 100;
        let sender = self.address();
        let balance = blockchain.get_balance(sender.as_str());
        if balance < amount as i128 + fee as i128 {
            let mut message = String::new();
            message.append("Address: ");
            message.append(sender.as_str());
            message.append(" does not have enough funds");
            return Err(message);
        }
        let receiver_address = receiver.address();
        let mut tx = Transaction::new(sender.as_str(), receiver_address.as_str(), amount, fee);
        let digest = tx.hash();
        let signature = self.sign(digest.as_slice());
        let der = signature_der(&signature);
        tx.signature = hex_encode(der.as_slice());
        blockchain.submit(tx);
        assert(blockchain.mempool@.drop_last() =~= old(blockchain).mempool@);
        Ok(())
    }
}

} // verus!
