//! The blocks that the chain comes to consensus over, and how they are framed on the wire.

use crate::primitives::B256;
use alloy_rlp::Decodable;
use vstd::prelude::*;

verus! {

/// The hash by which consensus names a block.
#[derive(Clone, Copy, PartialEq, Eq, Structural, Hash, Debug)]
pub struct Digest(pub B256);

/// A block of the execution layer, as consensus sees it.
#[derive(Debug)]
pub struct Block {
    hash: B256,
    parent_hash: B256,
    number: u64,
    timestamp: u64,
    encoded: Vec<u8>,
}

/// The parts of a block that consensus reads.
pub struct BlockView {
    pub hash: B256,
    pub parent_hash: B256,
    pub number: u64,
    pub timestamp: u64,
    /// The encoding of the whole block.
    pub encoded: Seq<u8>,
}

impl View for Block {
    type V = BlockView;

    closed spec fn view(&self) -> BlockView {
        BlockView {
            hash: self.hash,
            parent_hash: self.parent_hash,
            number: self.number,
            timestamp: self.timestamp,
            encoded: self.encoded@,
        }
    }
}

/// Why bytes are no framed block.
#[derive(Clone, Copy, PartialEq, Eq, Structural, Debug)]
pub enum FrameError {
    /// The header of the item cannot be read.
    Header,
    /// The item is longer than the bytes.
    EndOfBuffer,
}

/// What `alloy_rlp::Header::decode` makes of the start of the bytes: whether the item is a list, and
/// the length of its payload. None where it fails.
pub uninterp spec fn rlp_header(bytes: Seq<u8>) -> Option<(bool, usize)>;

/// How many bytes a number takes.
pub open spec fn byte_width(n: nat) -> nat
    decreases n,
{
    if n < 256 {
        1
    } else {
        1 + byte_width(n / 256)
    }
}

/// How many bytes the header of an item takes: one, and the length of a longer payload.
pub open spec fn rlp_header_len(payload: nat) -> nat {
    if payload < 56 {
        1
    } else {
        1 + byte_width(payload)
    }
}

/// `alloy_rlp::Header::decode`: the header of the item that the bytes start with. A payload that it
/// announces is within the bytes, and what follows the item makes no difference to the header: the
/// length of a payload is written in as few bytes as it takes.
#[verifier::external_body]
fn decode_rlp_header(bytes: &[u8]) -> (r: Option<(bool, usize)>)
    ensures
        r == rlp_header(bytes@),
        r matches Some(header) ==> header.1 <= bytes@.len(),
        r is Some ==> forall|rest: Seq<u8>| #[trigger] rlp_header(bytes@ + rest) == r,
        r matches Some(header) ==> forall|n: int, rest: Seq<u8>|
            rlp_header_len(header.1 as nat) + header.1 <= n <= bytes@.len()
                ==> #[trigger] rlp_header(bytes@.take(n) + rest) == r,
{
    let header = alloy_rlp::Header::decode(&mut &bytes[..]).ok()?;
    Some((header.list, header.payload_length))
}

fn header_len(payload: usize) -> (r: usize)
    ensures
        r == rlp_header_len(payload as nat),
        r <= 9,
{
    if payload < 56 {
        return 1;
    }
    let mut rest: u64 = payload as u64;
    let mut width: usize = 1;
    let ghost mut bound: int = 0x100_0000_0000_0000;
    while rest >= 256
        invariant
            1 <= width <= 8,
            width + byte_width(rest as nat) == 1 + byte_width(payload as nat),
            rest < bound * 256,
            bound == match width {
                1usize => 0x100_0000_0000_0000int,
                2usize => 0x1_0000_0000_0000int,
                3usize => 0x100_0000_0000int,
                4usize => 0x1_0000_0000int,
                5usize => 0x100_0000int,
                6usize => 0x1_0000int,
                7usize => 0x100int,
                _ => 1int,
            },
        decreases rest,
    {
        rest = rest / 256;
        width = width + 1;
        proof {
            bound = bound / 256;
        }
    }
    1 + width
}

/// The frame that bytes start with: one whole item.
pub open spec fn frame_of(bytes: Seq<u8>) -> Result<Seq<u8>, FrameError> {
    match rlp_header(bytes) {
        None => Err(FrameError::Header),
        Some((_, payload)) => {
            let total = rlp_header_len(payload as nat) + payload;
            if total > bytes.len() {
                Err(FrameError::EndOfBuffer)
            } else {
                Ok(bytes.take(total as int))
            }
        },
    }
}

/// Takes the frame off the start of the bytes. A frame that was found is found whatever follows it.
pub fn read_frame(bytes: &[u8]) -> (r: Result<Vec<u8>, FrameError>)
    ensures
        match r {
            Ok(frame) => frame_of(bytes@) == Ok::<_, FrameError>(frame@),
            Err(e) => frame_of(bytes@) == Err::<Seq<u8>, _>(e),
        },
        r matches Ok(frame) ==> reads_back(frame@) && forall|rest: Seq<u8>| #[trigger]
            frame_of(bytes@ + rest) == Ok::<_, FrameError>(frame@),
{
    let payload: usize = match decode_rlp_header(bytes) {
        Some((_, payload)) => payload,
        None => {
            return Err(FrameError::Header);
        },
    };
    let header: usize = header_len(payload);
    if header > bytes.len() || payload > bytes.len() - header {
        return Err(FrameError::EndOfBuffer);
    }
    let total: usize = header + payload;
    let mut frame: Vec<u8> = Vec::new();
    let mut i: usize = 0;
    while i < total
        invariant
            i <= total <= bytes@.len(),
            frame@ == bytes@.take(i as int),
        decreases total - i,
    {
        frame.push(bytes[i]);
        assert(frame@ =~= bytes@.take(i + 1));
        i = i + 1;
    }
    proof {
        assert forall|rest: Seq<u8>| #[trigger] frame_of(bytes@ + rest) == Ok::<_, FrameError>(
            frame@,
        ) by {
            assert(rlp_header(bytes@ + rest) is Some);
            assert((bytes@ + rest).take(total as int) =~= frame@);
        }
        assert forall|rest: Seq<u8>| #[trigger] frame_of(frame@ + rest) == Ok::<_, FrameError>(
            frame@,
        ) by {
            assert(frame@ == bytes@.take(total as int));
            assert(rlp_header(bytes@.take(total as int) + rest) is Some);
            assert((frame@ + rest).take(total as int) =~= frame@);
        }
    }
    Ok(frame)
}

/// Whether an encoding is read back whole from any stream that it starts.
pub open spec fn reads_back(encoded: Seq<u8>) -> bool {
    forall|rest: Seq<u8>| #[trigger] frame_of(encoded + rest) == Ok::<_, FrameError>(encoded)
}

/// What the header of a decoded block says.
#[derive(Clone, Copy, PartialEq, Eq, Structural, Debug)]
pub struct BlockFields {
    pub hash: B256,
    pub parent_hash: B256,
    pub number: u64,
    pub timestamp: u64,
}

/// What `alloy_rlp::Decodable::decode` makes of the encoding of an `alloy_consensus::Block`, by its
/// header. None where it fails.
pub uninterp spec fn decoded_block(encoded: Seq<u8>) -> Option<BlockFields>;

/// `alloy_rlp::Decodable::decode` of an `alloy_consensus::Block` with the transactions of the chain: its
/// hash, the hash of its parent, its number and its time.
#[verifier::external_body]
fn decode_block(encoded: &Vec<u8>) -> (r: Option<BlockFields>)
    ensures
        r == decoded_block(encoded@),
{
    let block = alloy_consensus::Block::<
        alloy_consensus::EthereumTxEnvelope<alloy_consensus::TxEip4844>,
    >::decode(&mut &encoded[..]).ok()?;
    let word = |h: alloy_primitives::B256| {
        let (hi, lo) = h.split_at(16);
        B256 {
            hi: u128::from_be_bytes(hi.try_into().unwrap()),
            lo: u128::from_be_bytes(lo.try_into().unwrap()),
        }
    };
    let (hash, parent_hash) = (word(block.header.hash_slow()), word(block.header.parent_hash));
    let (number, timestamp) = (block.header.number, block.header.timestamp);
    Some(BlockFields { hash, parent_hash, number, timestamp })
}

/// Why bytes are no block.
#[derive(Clone, Copy, PartialEq, Eq, Structural, Debug)]
pub enum ReadBlockError {
    Frame(FrameError),
    /// The frame holds no block.
    Decode,
}

/// A block, by what its header says and its encoding.
pub open spec fn with_fields(fields: BlockFields, encoded: Seq<u8>) -> BlockView {
    BlockView {
        hash: fields.hash,
        parent_hash: fields.parent_hash,
        number: fields.number,
        timestamp: fields.timestamp,
        encoded,
    }
}

/// What reading a block from the bytes comes to: the frame is taken off and decoded. How many bytes
/// were taken off is said too.
pub open spec fn block_of(bytes: Seq<u8>) -> Result<(BlockView, int), ReadBlockError> {
    match frame_of(bytes) {
        Err(e) => Err(ReadBlockError::Frame(e)),
        Ok(frame) => match decoded_block(frame) {
            Some(fields) => Ok((with_fields(fields, frame), frame.len() as int)),
            None => Err(ReadBlockError::Decode),
        },
    }
}

/// Whether the parts are those of a block: its encoding is read back whole, and decodes to them.
pub open spec fn is_block(block: BlockView) -> bool {
    &&& reads_back(block.encoded)
    &&& decoded_block(block.encoded) matches Some(fields) && block == with_fields(
        fields,
        block.encoded,
    )
}

/// What was read, by its abstract value.
pub open spec fn read_view(r: Result<(Block, usize), ReadBlockError>) -> Result<
    (BlockView, int),
    ReadBlockError,
> {
    match r {
        Ok((block, used)) => Ok((block@, used as int)),
        Err(e) => Err(e),
    }
}

impl Block {
    /// A block is what its encoding decodes to.
    #[verifier::type_invariant]
    spec fn is_whole(self) -> bool {
        is_block(self@)
    }

    /// A block of the execution layer, by its encoding. None where the encoding is not that of one
    /// block.
    pub fn from_execution_block(encoded: Vec<u8>) -> (r: Option<Self>)
        ensures
            r is Some <==> frame_of(encoded@) == Ok::<_, FrameError>(encoded@) && decoded_block(
                encoded@,
            ) is Some,
            r matches Some(block) ==> block@ == with_fields(decoded_block(encoded@)->0, encoded@),
    {
        let frame = match read_frame(encoded.as_slice()) {
            Ok(frame) => frame,
            Err(_) => {
                return None;
            },
        };
        if frame.len() != encoded.len() {
            return None;
        }
        assert(frame@ =~= encoded@);
        match decode_block(&frame) {
            Some(fields) => Some(
                Block {
                    hash: fields.hash,
                    parent_hash: fields.parent_hash,
                    number: fields.number,
                    timestamp: fields.timestamp,
                    encoded,
                },
            ),
            None => None,
        }
    }

    /// Reads a block off the start of the bytes. Says how many bytes it took.
    pub fn read_cfg(bytes: &[u8]) -> (r: Result<(Self, usize), ReadBlockError>)
        ensures
            read_view(r) == block_of(bytes@),
    {
        let frame = match read_frame(bytes) {
            Ok(frame) => frame,
            Err(e) => {
                return Err(ReadBlockError::Frame(e));
            },
        };
        let used: usize = frame.len();
        match decode_block(&frame) {
            Some(fields) => {
                let block = Block {
                    hash: fields.hash,
                    parent_hash: fields.parent_hash,
                    number: fields.number,
                    timestamp: fields.timestamp,
                    encoded: frame,
                };
                Ok((block, used))
            },
            None => Err(ReadBlockError::Decode),
        }
    }

    /// The encoding of the execution block.
    pub fn into_inner(self) -> (r: Vec<u8>)
        ensures
            r@ == self@.encoded,
    {
        self.encoded
    }

    pub fn block_hash(&self) -> (r: B256)
        ensures
            r == self@.hash,
    {
        self.hash
    }

    pub fn digest(&self) -> (r: Digest)
        ensures
            r == Digest(self@.hash),
    {
        Digest(self.hash)
    }

    /// What consensus commits to: the digest.
    pub fn commitment(&self) -> (r: Digest)
        ensures
            r == Digest(self@.hash),
    {
        self.digest()
    }

    pub fn parent_digest(&self) -> (r: Digest)
        ensures
            r == Digest(self@.parent_hash),
    {
        Digest(self.parent_hash)
    }

    pub fn parent(&self) -> (r: Digest)
        ensures
            r == Digest(self@.parent_hash),
    {
        self.parent_digest()
    }

    pub fn parent_hash(&self) -> (r: B256)
        ensures
            r == self@.parent_hash,
    {
        self.parent_hash
    }

    pub fn timestamp(&self) -> (r: u64)
        ensures
            r == self@.timestamp,
    {
        self.timestamp
    }

    pub fn height(&self) -> (r: u64)
        ensures
            r == self@.number,
    {
        self.number
    }

    /// Appends the encoding to a buffer. It is read back from there whatever follows.
    pub fn write(&self, buf: &mut Vec<u8>)
        ensures
            final(buf)@ == old(buf)@ + self@.encoded,
            is_block(self@),
    {
        proof {
            use_type_invariant(self);
        }
        let ghost before = buf@;
        let mut i: usize = 0;
        assert(before + self.encoded@.take(0) =~= before);
        while i < self.encoded.len()
            invariant
                i <= self.encoded@.len(),
                buf@ == before + self.encoded@.take(i as int),
            decreases self.encoded@.len() - i,
        {
            buf.push(self.encoded[i]);
            assert(buf@ =~= before + self.encoded@.take(i + 1));
            i = i + 1;
        }
        assert(self.encoded@.take(i as int) =~= self.encoded@);
    }

    /// How many bytes `write` appends.
    pub fn encode_size(&self) -> (r: usize)
        ensures
            r == self@.encoded.len(),
    {
        self.encoded.len()
    }
}

/// A block that was written is read back, whatever follows it, and what follows is left.
pub proof fn law_written_blocks_read_back(block: BlockView, rest: Seq<u8>)
    requires
        is_block(block),
    ensures
        block_of(block.encoded + rest) == Ok::<_, ReadBlockError>(
            (block, block.encoded.len() as int),
        ),
        (block.encoded + rest).skip(block.encoded.len() as int) == rest,
{
    assert((block.encoded + rest).skip(block.encoded.len() as int) =~= rest);
}

/// A frame is a prefix of the bytes that it was read from.
pub proof fn law_frames_are_prefixes(bytes: Seq<u8>)
    requires
        frame_of(bytes) is Ok,
    ensures
        frame_of(bytes)->Ok_0.len() <= bytes.len(),
        frame_of(bytes)->Ok_0 == bytes.take(frame_of(bytes)->Ok_0.len() as int),
{
}

} // verus!
